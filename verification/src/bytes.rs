//! Byte strings: the text of words, configuration values and file names,
//! with their order, decimal numbers and searches.
use base64::Engine;
use vstd::prelude::*;
use vstd::string::*;

verus! {

/// The UTF-8 bytes of a text.
pub open spec fn text(s: &str) -> Seq<u8> {
    s.spec_bytes()
}

/// The UTF-8 bytes of a string's characters.
pub open spec fn utf8(s: Seq<char>) -> Seq<u8> {
    vstd::utf8::encode_utf8(s)
}

/// The UTF-8 bytes of `s`, as a vector.
pub fn string_bytes(s: &String) -> (r: Vec<u8>)
    ensures
        r@ == utf8(s@),
{
    let b = s.as_str().as_bytes();
    vstd::slice::slice_to_vec(b)
}

/// Appends the UTF-8 bytes of `s` to `out`.
pub fn push_str(out: &mut Vec<u8>, s: &str)
    ensures
        final(out)@ == old(out)@ + text(s),
{
    let b = s.as_bytes();
    out.extend_from_slice(b);
    assert(final(out)@ =~= old(out)@ + text(s));
}

/// The UTF-8 bytes of `s`, as a vector.
pub fn str_bytes(s: &str) -> (r: Vec<u8>)
    ensures
        r@ == text(s),
{
    let mut r: Vec<u8> = Vec::new();
    push_str(&mut r, s);
    assert(r@ =~= text(s));
    r
}

/// `a` followed by `b`.
pub fn concat(a: &[u8], b: &[u8]) -> (r: Vec<u8>)
    ensures
        r@ == a@ + b@,
{
    let mut r: Vec<u8> = Vec::new();
    r.extend_from_slice(a);
    r.extend_from_slice(b);
    assert(r@ =~= a@ + b@);
    r
}

/// Whether two byte strings are equal.
pub fn bytes_eq(a: &[u8], b: &[u8]) -> (r: bool)
    ensures
        r == (a@ == b@),
{
    if a.len() != b.len() {
        return false;
    }
    let mut i: usize = 0;
    while i < a.len()
        invariant
            i <= a@.len(),
            a@.len() == b@.len(),
            a@.take(i as int) == b@.take(i as int),
        decreases a.len() - i,
    {
        if a[i] != b[i] {
            assert(a@[i as int] != b@[i as int]);
            return false;
        }
        assert(a@.take(i + 1) =~= a@.take(i as int).push(a@[i as int]));
        assert(b@.take(i + 1) =~= b@.take(i as int).push(b@[i as int]));
        i = i + 1;
    }
    assert(a@ =~= a@.take(i as int));
    assert(b@ =~= b@.take(i as int));
    true
}

/// Whether `s` begins with `prefix`.
pub open spec fn has_prefix(s: Seq<u8>, prefix: Seq<u8>) -> bool {
    prefix.len() <= s.len() && s.take(prefix.len() as int) == prefix
}

/// Whether `s` begins with `prefix`.
pub fn starts_with(s: &[u8], prefix: &[u8]) -> (r: bool)
    ensures
        r == has_prefix(s@, prefix@),
{
    if prefix.len() > s.len() {
        return false;
    }
    let head = vstd::slice::slice_subrange(s, 0, prefix.len());
    assert(head@ =~= s@.take(prefix@.len() as int));
    bytes_eq(head, prefix)
}

/// Whether `s` ends with `suffix`.
pub open spec fn has_suffix(s: Seq<u8>, suffix: Seq<u8>) -> bool {
    suffix.len() <= s.len() && s.skip(s.len() - suffix.len()) == suffix
}

/// Whether `s` ends with `suffix`.
pub fn ends_with(s: &[u8], suffix: &[u8]) -> (r: bool)
    ensures
        r == has_suffix(s@, suffix@),
{
    if suffix.len() > s.len() {
        return false;
    }
    let tail = vstd::slice::slice_subrange(s, s.len() - suffix.len(), s.len());
    assert(tail@ =~= s@.skip(s@.len() - suffix@.len()));
    bytes_eq(tail, suffix)
}

/// The bytes of `s` from `start` to `end`, as a vector.
pub fn slice_vec(s: &[u8], start: usize, end: usize) -> (r: Vec<u8>)
    requires
        start <= end <= s@.len(),
    ensures
        r@ == s@.subrange(start as int, end as int),
{
    vstd::slice::slice_to_vec(vstd::slice::slice_subrange(s, start, end))
}

/// The first position of byte `b` in `s`, if it occurs.
pub open spec fn first_index(s: Seq<u8>, b: u8) -> Option<int> {
    if exists|i: int| 0 <= i < s.len() && s[i] == b {
        Some(choose|i: int| 0 <= i < s.len() && s[i] == b && forall|j: int| 0 <= j < i ==> s[j] != b)
    } else {
        None
    }
}

/// The first position of byte `b` in `s`, if it occurs.
pub fn find_byte(s: &[u8], b: u8) -> (r: Option<usize>)
    ensures
        match r {
            Some(i) => i < s@.len() && s@[i as int] == b && forall|j: int| 0 <= j < i ==> s@[j] != b,
            None => forall|j: int| 0 <= j < s@.len() ==> s@[j] != b,
        },
        r matches Some(i) ==> first_index(s@, b) == Some(i as int),
        r is None ==> first_index(s@, b) is None,
{
    let mut i: usize = 0;
    while i < s.len()
        invariant
            i <= s@.len(),
            forall|j: int| 0 <= j < i ==> s@[j] != b,
        decreases s.len() - i,
    {
        if s[i] == b {
            proof {
                let w = choose|k: int|
                    0 <= k < s@.len() && s@[k] == b && forall|j: int| 0 <= j < k ==> s@[j] != b;
                assert(0 <= i < s@.len() && s@[i as int] == b && forall|j: int|
                    0 <= j < i ==> s@[j] != b);
                if w < i {
                } else if w > i {
                }
            }
            return Some(i);
        }
        i = i + 1;
    }
    None
}

/// The byte order of strings: the first differing byte decides, and a proper
/// prefix comes first. On UTF-8 text this is the order of `str`.
pub open spec fn lex_lt(a: Seq<u8>, b: Seq<u8>) -> bool
    decreases a.len(),
{
    if b.len() == 0 {
        false
    } else if a.len() == 0 {
        true
    } else if a[0] != b[0] {
        a[0] < b[0]
    } else {
        lex_lt(a.drop_first(), b.drop_first())
    }
}

/// No string comes before itself.
pub proof fn lemma_lex_irreflexive(a: Seq<u8>)
    ensures
        !lex_lt(a, a),
    decreases a.len(),
{
    if a.len() > 0 {
        lemma_lex_irreflexive(a.drop_first());
    }
}

/// Of two different strings, exactly one comes first.
pub proof fn lemma_lex_total(a: Seq<u8>, b: Seq<u8>)
    ensures
        a != b ==> lex_lt(a, b) || lex_lt(b, a),
        !(lex_lt(a, b) && lex_lt(b, a)),
    decreases a.len(),
{
    if a.len() > 0 && b.len() > 0 && a[0] == b[0] {
        lemma_lex_total(a.drop_first(), b.drop_first());
        if a != b {
            assert(a =~= seq![a[0]] + a.drop_first());
            assert(b =~= seq![b[0]] + b.drop_first());
        }
    } else if a.len() == 0 && b.len() == 0 {
        assert(a =~= b);
    }
}

/// The order is transitive.
pub proof fn lemma_lex_transitive(a: Seq<u8>, b: Seq<u8>, c: Seq<u8>)
    requires
        lex_lt(a, b),
        lex_lt(b, c),
    ensures
        lex_lt(a, c),
    decreases a.len(),
{
    if a.len() > 0 && b.len() > 0 && c.len() > 0 && a[0] == b[0] && b[0] == c[0] {
        lemma_lex_transitive(a.drop_first(), b.drop_first(), c.drop_first());
    }
}

/// How two byte strings compare.
#[derive(Clone, Copy, Debug, PartialEq, Eq, Structural)]
pub enum Order {
    Less,
    Equal,
    Greater,
}

proof fn lemma_lex_skip(a: Seq<u8>, b: Seq<u8>, i: int)
    requires
        0 <= i <= a.len(),
        i <= b.len(),
        a.take(i) == b.take(i),
    ensures
        lex_lt(a, b) == lex_lt(a.skip(i), b.skip(i)),
    decreases i,
{
    if i > 0 {
        assert(a[0] == a.take(i)[0]);
        assert(b[0] == b.take(i)[0]);
        assert(a.drop_first().take(i - 1) =~= a.take(i).drop_first());
        assert(b.drop_first().take(i - 1) =~= b.take(i).drop_first());
        lemma_lex_skip(a.drop_first(), b.drop_first(), i - 1);
        assert(a.drop_first().skip(i - 1) =~= a.skip(i));
        assert(b.drop_first().skip(i - 1) =~= b.skip(i));
    } else {
        assert(a.skip(0) =~= a);
        assert(b.skip(0) =~= b);
    }
}

/// Compares two byte strings in `lex_lt` order.
pub fn compare_bytes(a: &[u8], b: &[u8]) -> (r: Order)
    ensures
        (r == Order::Less) == lex_lt(a@, b@),
        (r == Order::Equal) == (a@ == b@),
        (r == Order::Greater) == lex_lt(b@, a@),
{
    let mut i: usize = 0;
    while i < a.len() && i < b.len()
        invariant
            i <= a@.len(),
            i <= b@.len(),
            a@.take(i as int) == b@.take(i as int),
        decreases a.len() - i,
    {
        if a[i] != b[i] {
            proof {
                lemma_lex_skip(a@, b@, i as int);
                lemma_lex_skip(b@, a@, i as int);
                assert(a@.skip(i as int)[0] == a@[i as int]);
                assert(b@.skip(i as int)[0] == b@[i as int]);
                assert(a@[i as int] != b@[i as int]);
            }
            if a[i] < b[i] {
                return Order::Less;
            } else {
                return Order::Greater;
            }
        }
        assert(a@.take(i + 1) =~= a@.take(i as int).push(a@[i as int]));
        assert(b@.take(i + 1) =~= b@.take(i as int).push(b@[i as int]));
        i = i + 1;
    }
    proof {
        lemma_lex_skip(a@, b@, i as int);
        lemma_lex_skip(b@, a@, i as int);
        lemma_lex_irreflexive(a@);
    }
    if a.len() == b.len() {
        assert(a@ =~= a@.take(i as int));
        assert(b@ =~= b@.take(i as int));
        Order::Equal
    } else if a.len() < b.len() {
        assert(a@.len() != b@.len());
        Order::Less
    } else {
        assert(a@.len() != b@.len());
        Order::Greater
    }
}

/// The decimal digits of `n`, as `to_string` writes them.
pub open spec fn decimal(n: nat) -> Seq<u8>
    decreases n,
{
    if n < 10 {
        seq![(48 + n) as u8]
    } else {
        decimal(n / 10) + seq![(48 + n % 10) as u8]
    }
}

/// Appends the decimal digits of `n` to `out`.
pub fn push_decimal(out: &mut Vec<u8>, n: u32)
    ensures
        final(out)@ == old(out)@ + decimal(n as nat),
    decreases n,
{
    if n >= 10 {
        push_decimal(out, n / 10);
    }
    let d: u8 = (n % 10) as u8;
    out.push(48 + d);
    assert(final(out)@ =~= old(out)@ + decimal(n as nat));
}

/// Whether every byte is an ASCII digit.
pub open spec fn all_digits(s: Seq<u8>) -> bool {
    forall|i: int| 0 <= i < s.len() ==> 48 <= #[trigger] s[i] <= 57
}

/// The number that a string of ASCII digits spells.
pub open spec fn digits_value(s: Seq<u8>) -> nat
    decreases s.len(),
{
    if s.len() == 0 {
        0
    } else {
        digits_value(s.drop_last()) * 10 + (s.last() - 48) as nat
    }
}

/// What `str::parse::<u16>` gives: an optional `+`, then at least one ASCII
/// digit and nothing else, spelling a number that fits in 16 bits.
pub open spec fn spec_parse_u16(s: Seq<u8>) -> Option<u16> {
    let d = if s.len() > 0 && s[0] == 43u8 {
        s.drop_first()
    } else {
        s
    };
    if d.len() > 0 && all_digits(d) && digits_value(d) <= 65535 {
        Some(digits_value(d) as u16)
    } else {
        None
    }
}

proof fn lemma_digits_value_grows(s: Seq<u8>, k: int)
    requires
        all_digits(s),
        0 <= k <= s.len(),
    ensures
        digits_value(s.take(k)) <= digits_value(s),
    decreases s.len() - k,
{
    if k < s.len() {
        lemma_digits_value_grows(s, k + 1);
        assert(s.take(k + 1).drop_last() =~= s.take(k));
        assert(48 <= s[k] <= 57);
    } else {
        assert(s.take(k) =~= s);
    }
}

/// Parses a decimal `u16` as `str::parse::<u16>` does.
pub fn parse_u16(s: &[u8]) -> (r: Option<u16>)
    ensures
        r == spec_parse_u16(s@),
{
    let start: usize = if s.len() > 0 && s[0] == 43u8 {
        1
    } else {
        0
    };
    let ghost d = if s@.len() > 0 && s@[0] == 43u8 {
        s@.drop_first()
    } else {
        s@
    };
    assert(d =~= s@.skip(start as int));
    if start == s.len() {
        return None;
    }
    let mut acc: u32 = 0;
    let mut i: usize = start;
    while i < s.len()
        invariant
            start <= i <= s@.len(),
            d == s@.skip(start as int),
            d == (if s@.len() > 0 && s@[0] == 43u8 {
                s@.drop_first()
            } else {
                s@
            }),
            d.len() > 0,
            all_digits(d.take(i - start)),
            acc == digits_value(d.take(i - start)),
            acc <= 65535,
        decreases s.len() - i,
    {
        let c = s[i];
        assert(d[i - start] == c);
        if c < 48 || c > 57 {
            assert(!all_digits(d));
            return None;
        }
        let next: u32 = acc * 10 + ((c - 48) as u32);
        assert(d.take(i - start + 1).drop_last() =~= d.take(i - start));
        assert(all_digits(d.take(i - start + 1)));
        if next > 65535 {
            proof {
                if all_digits(d) {
                    lemma_digits_value_grows(d, i - start + 1);
                }
            }
            return None;
        }
        acc = next;
        i = i + 1;
    }
    assert(d.take(i - start) =~= d);
    Some(acc as u16)
}


pub proof fn lemma_decimal_digits(n: nat)
    ensures
        decimal(n).len() > 0,
        all_digits(decimal(n)),
        digits_value(decimal(n)) == n,
    decreases n,
{
    if n >= 10 {
        lemma_decimal_digits(n / 10);
        let d = decimal(n);
        assert(d.drop_last() =~= decimal(n / 10));
        assert forall|i: int| 0 <= i < d.len() implies 48 <= #[trigger] d[i] <= 57 by {
            if i < d.len() - 1 {
                assert(d[i] == decimal(n / 10)[i]);
            }
        }
        assert(d.last() == (48 + n % 10) as u8);
        assert(((48 + n % 10) as u8) as int == 48 + n % 10);
        assert(digits_value(d) == digits_value(decimal(n / 10)) * 10 + (d.last() - 48) as nat);
        assert(n == (n / 10) * 10 + n % 10);
    } else {
        let d = decimal(n);
        assert(d.drop_last() =~= Seq::<u8>::empty());
        assert(((48 + n) as u8) as int == 48 + n);
        assert(digits_value(d) == digits_value(d.drop_last()) * 10 + (d.last() - 48) as nat);
    }
}

/// A port number written in decimal parses back to itself.
pub proof fn lemma_parse_decimal(n: u16)
    ensures
        spec_parse_u16(decimal(n as nat)) == Some(n),
{
    lemma_decimal_digits(n as nat);
    let d = decimal(n as nat);
    assert(48 <= d[0]);
}


proof fn lemma_utf8_len(chars: Seq<char>)
    ensures
        utf8(chars).len() >= chars.len(),
    decreases chars.len(),
{
    if chars.len() > 0 {
        lemma_utf8_len(chars.drop_first());
    }
}

/// The number of characters of `s`, by which `format!` pads it.
pub fn char_count(s: &str) -> (r: usize)
    ensures
        r == s@.len(),
{
    broadcast use vstd::string::axiom_spec_iter;

    let bytes = s.as_bytes();
    proof {
        lemma_utf8_len(s@);
    }
    let blen = bytes.len();
    let ghost total = blen as nat;
    assert(s@.len() <= total);
    let mut n: usize = 0;
    for c in it: s.chars()
        invariant
            n == it.index(),
            it.seq() == s@,
            s@.len() <= total,
            total <= usize::MAX,
    {
        n = n + 1;
    }
    n
}


/// The base64 character (standard alphabet, RFC 4648) of a 6-bit value.
pub open spec fn base64_char(v: int) -> u8 {
    if v < 26 {
        (65 + v) as u8
    } else if v < 52 {
        (97 + v - 26) as u8
    } else if v < 62 {
        (48 + v - 52) as u8
    } else if v == 62 {
        43u8
    } else {
        47u8
    }
}

/// The base64 text (standard alphabet, padded with `=`) of `bytes`: every
/// three bytes become four characters of six bits each.
pub open spec fn base64_standard(bytes: Seq<u8>) -> Seq<u8>
    decreases bytes.len(),
{
    if bytes.len() == 0 {
        Seq::empty()
    } else if bytes.len() == 1 {
        let n = bytes[0] * 65536;
        seq![base64_char(n / 262144), base64_char((n / 4096) % 64), 61u8, 61u8]
    } else if bytes.len() == 2 {
        let n = bytes[0] * 65536 + bytes[1] * 256;
        seq![
            base64_char(n / 262144),
            base64_char((n / 4096) % 64),
            base64_char((n / 64) % 64),
            61u8,
        ]
    } else {
        let n = bytes[0] * 65536 + bytes[1] * 256 + bytes[2];
        seq![
            base64_char(n / 262144),
            base64_char((n / 4096) % 64),
            base64_char((n / 64) % 64),
            base64_char(n % 64),
        ] + base64_standard(bytes.skip(3))
    }
}

/// Encodes a key in base64 with `base64::engine::general_purpose::STANDARD`.
///
/// Trusted: `STANDARD` is the standard alphabet of RFC 4648 with padding, as
/// the crate documents, and the result's bytes are that encoding of the key.
#[verifier::external_body]
pub(crate) fn base64_encode(key: &[u8; 32]) -> (r: Vec<u8>)
    ensures
        r@ == base64_standard(key@),
{
    base64::engine::general_purpose::STANDARD.encode(key).into_bytes()
}

/// `s`, which has `chars` characters, followed by spaces up to `width`
/// characters, as `format!("{:<width$}")` writes it.
pub open spec fn pad(s: Seq<u8>, chars: nat, width: nat) -> Seq<u8> {
    if chars < width {
        s + Seq::new((width - chars) as nat, |i: int| 32u8)
    } else {
        s
    }
}

/// Appends `s`, of `chars` characters, padded with spaces to `width` characters.
pub fn push_padded(out: &mut Vec<u8>, s: &[u8], chars: usize, width: usize)
    ensures
        final(out)@ == old(out)@ + pad(s@, chars as nat, width as nat),
{
    out.extend_from_slice(s);
    let mut k: usize = chars;
    let ghost base = out@;
    while k < width
        invariant
            chars <= k <= width || (k == chars && chars >= width),
            out@ == base + Seq::new((k - chars) as nat, |i: int| 32u8),
        decreases width - k,
    {
        out.push(32u8);
        k = k + 1;
        assert(out@ =~= base + Seq::new((k - chars) as nat, |i: int| 32u8));
    }
    assert(final(out)@ =~= old(out)@ + pad(s@, chars as nat, width as nat));
}

/// A lower-case hexadecimal digit.
pub open spec fn hex_digit(d: nat) -> u8 {
    if d < 10 {
        (48 + d) as u8
    } else {
        (87 + d) as u8
    }
}

/// The last `k` hexadecimal digits of `n`, with leading zeros.
pub open spec fn hex_digits(n: nat, k: nat) -> Seq<u8>
    decreases k,
{
    if k == 0 {
        Seq::empty()
    } else {
        hex_digits(n / 16, (k - 1) as nat) + seq![hex_digit(n % 16)]
    }
}

/// Appends the last `k` hexadecimal digits of `n`, as `{:0k$x}` writes a
/// number of at most `k` digits.
pub fn push_hex(out: &mut Vec<u8>, n: u32, k: u32)
    ensures
        final(out)@ == old(out)@ + hex_digits(n as nat, k as nat),
    decreases k,
{
    if k > 0 {
        push_hex(out, n / 16, k - 1);
        let d: u8 = (n % 16) as u8;
        if d < 10 {
            out.push(48 + d);
        } else {
            out.push(87 + d);
        }
        assert(final(out)@ =~= old(out)@ + hex_digits(n as nat, k as nat));
    } else {
        assert(final(out)@ =~= old(out)@ + hex_digits(n as nat, k as nat));
    }
}


/// ASCII bytes are valid UTF-8.
pub proof fn lemma_ascii_valid_utf8(s: Seq<u8>)
    requires
        forall|i: int| 0 <= i < s.len() ==> #[trigger] s[i] < 0x80,
    ensures
        vstd::utf8::valid_utf8(s),
    decreases s.len(),
{
    if s.len() > 0 {
        let b = s[0];
        assert((b & 0x7F) as u32 == b as u32) by (bit_vector)
            requires
                b < 0x80,
        ;
        let rest = vstd::utf8::pop_first_scalar(s);
        assert(rest =~= s.drop_first());
        assert forall|i: int| 0 <= i < rest.len() implies #[trigger] rest[i] < 0x80 by {
            assert(rest[i] == s[i + 1]);
        }
        lemma_ascii_valid_utf8(rest);
    }
}

/// Decimal digits are valid UTF-8.
pub proof fn lemma_decimal_valid_utf8(n: nat)
    ensures
        vstd::utf8::valid_utf8(decimal(n)),
{
    lemma_decimal_digits(n);
    let d = decimal(n);
    assert forall|i: int| 0 <= i < d.len() implies #[trigger] d[i] < 0x80 by {
        assert(48 <= d[i] <= 57);
    }
    lemma_ascii_valid_utf8(d);
}


/// Names are ordered byte by byte, each byte as an unsigned value from 0 to
/// 255: where two strings first differ, the one with the smaller byte comes
/// first, and a proper prefix comes before the longer string.
pub proof fn lemma_lex_unsigned_bytes(a: Seq<u8>, b: Seq<u8>, i: int)
    requires
        0 <= i <= a.len(),
        i <= b.len(),
        a.take(i) == b.take(i),
    ensures
        i < a.len() && i < b.len() && (a[i] as int) < (b[i] as int) ==> lex_lt(a, b),
        i == a.len() && a.len() < b.len() ==> lex_lt(a, b),
    decreases i,
{
    if i > 0 {
        assert(a[0] == a.take(i)[0]);
        assert(b[0] == b.take(i)[0]);
        assert(a.drop_first().take(i - 1) =~= a.take(i).drop_first());
        assert(b.drop_first().take(i - 1) =~= b.take(i).drop_first());
        lemma_lex_unsigned_bytes(a.drop_first(), b.drop_first(), i - 1);
    }
}

} // verus!
