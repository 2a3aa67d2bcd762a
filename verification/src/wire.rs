//! The RouterOS API wire format: every word is sent as a length header
//! followed by its bytes, and a sentence is a run of words closed by a
//! word of length zero.
use vstd::prelude::*;

verus! {

/// Why a received byte stream is not a RouterOS sentence.
#[derive(Clone, Copy, Debug, PartialEq, Eq, Structural)]
pub enum WireError {
    /// The first byte of a length header is 0xF0 or above (control bytes
    /// and 5-byte lengths are not supported).
    UnsupportedPrefix(u8),
    /// A word is not valid UTF-8.
    NotUtf8,
}

/// The bytes of the length header written in front of a word of `len` bytes.
///
/// Lengths below 0x80 take one byte, below 0x4000 two, below 0x200000 three,
/// and everything else four; the high bits of the first byte mark the size.
pub open spec fn spec_encode_length(len: usize) -> Seq<u8> {
    if len < 0x80 {
        seq![len as u8]
    } else if len < 0x4000 {
        seq![((len >> 8) | 0x80) as u8, (len & 0xFF) as u8]
    } else if len < 0x200000 {
        seq![((len >> 16) | 0xC0) as u8, ((len >> 8) & 0xFF) as u8, (len & 0xFF) as u8]
    } else {
        seq![
            ((len >> 24) | 0xE0) as u8,
            ((len >> 16) & 0xFF) as u8,
            ((len >> 8) & 0xFF) as u8,
            (len & 0xFF) as u8,
        ]
    }
}

/// How many bytes a length header has, judged by its first byte
/// (0 when the first byte starts no supported header).
pub open spec fn header_size(first: u8) -> int {
    if first < 0x80 {
        1
    } else if first < 0xC0 {
        2
    } else if first < 0xE0 {
        3
    } else if first < 0xF0 {
        4
    } else {
        0
    }
}

/// The length that a complete header `h` (of `header_size(h[0])` bytes) announces.
pub open spec fn spec_decode_length(h: Seq<u8>) -> usize {
    let first = h[0];
    if first < 0x80 {
        first as usize
    } else if first < 0xC0 {
        (((first as usize) & 0x3F) << 8) | (h[1] as usize)
    } else if first < 0xE0 {
        (((first as usize) & 0x1F) << 16) | ((h[1] as usize) << 8) | (h[2] as usize)
    } else {
        (((first as usize) & 0x0F) << 24) | ((h[1] as usize) << 16) | ((h[2] as usize) << 8) | (
        h[3] as usize)
    }
}

/// A word as sent: its length header, then its bytes.
pub open spec fn spec_encode_word(w: Seq<u8>) -> Seq<u8> {
    spec_encode_length(w.len() as usize) + w
}

/// The words of a sentence as sent, one after another.
pub open spec fn spec_encode_words(ws: Seq<Seq<u8>>) -> Seq<u8>
    decreases ws.len(),
{
    if ws.len() == 0 {
        Seq::empty()
    } else {
        spec_encode_words(ws.drop_last()) + spec_encode_word(ws.last())
    }
}

/// A sentence as sent: each word in turn, then the empty word (a zero byte).
pub open spec fn spec_encode_sentence(ws: Seq<Seq<u8>>) -> Seq<u8> {
    spec_encode_words(ws) + seq![0u8]
}

/// The byte contents of a list of words.
pub open spec fn words_view(ws: Seq<Vec<u8>>) -> Seq<Seq<u8>> {
    ws.map_values(|w: Vec<u8>| w@)
}

/// What reading a sentence from the front of a buffer comes to.
pub enum SpecParse {
    /// The buffer ends before the sentence does: at least this many more
    /// bytes are needed before anything more can be decided.
    NeedMore(nat),
    /// The words of the sentence, and how many bytes it took.
    Complete(Seq<Seq<u8>>, nat),
    /// The bytes are not a sentence.
    Invalid(WireError),
}

/// Reads one sentence from the front of `buf`, word by word: a header, then
/// as many bytes as it announces; a header announcing zero ends the sentence.
pub open spec fn parse_sentence(buf: Seq<u8>) -> SpecParse
    decreases buf.len(),
{
    if buf.len() == 0 {
        SpecParse::NeedMore(1)
    } else if header_size(buf[0]) == 0 {
        SpecParse::Invalid(WireError::UnsupportedPrefix(buf[0]))
    } else if buf.len() < header_size(buf[0]) {
        SpecParse::NeedMore((header_size(buf[0]) - buf.len()) as nat)
    } else {
        let h = header_size(buf[0]);
        let len = spec_decode_length(buf.take(h)) as int;
        if len == 0 {
            SpecParse::Complete(Seq::empty(), h as nat)
        } else if buf.len() < h + len {
            SpecParse::NeedMore((h + len - buf.len()) as nat)
        } else if !vstd::utf8::valid_utf8(buf.subrange(h, h + len)) {
            SpecParse::Invalid(WireError::NotUtf8)
        } else {
            match parse_sentence(buf.skip(h + len)) {
                SpecParse::Complete(ws, n) => SpecParse::Complete(
                    seq![buf.subrange(h, h + len)] + ws,
                    (h + len + n) as nat,
                ),
                other => other,
            }
        }
    }
}


/// A sentence read from the front of a buffer, as `decode_sentence` returns it.
pub enum Parsed {
    /// The buffer ends inside the sentence: read this many more bytes.
    NeedMore(usize),
    /// The words of the sentence and the number of bytes it took.
    Complete(Vec<Vec<u8>>, usize),
    /// The bytes are not a sentence.
    Invalid(WireError),
}

impl Parsed {
    pub open spec fn spec_view(&self) -> SpecParse {
        match self {
            Parsed::NeedMore(n) => SpecParse::NeedMore(*n as nat),
            Parsed::Complete(ws, n) => SpecParse::Complete(words_view(ws@), *n as nat),
            Parsed::Invalid(e) => SpecParse::Invalid(*e),
        }
    }
}

/// `r` read on after `pos` bytes that gave the words `ws`.
pub open spec fn after_words(ws: Seq<Seq<u8>>, pos: nat, r: SpecParse) -> SpecParse {
    match r {
        SpecParse::Complete(ws2, n) => SpecParse::Complete(ws + ws2, pos + n),
        other => other,
    }
}

/// Whether `bytes` is valid UTF-8, by `std::str::from_utf8`.
///
/// Trusted: `std::str::from_utf8` returns `Ok` exactly on valid UTF-8, as its
/// documentation says; vstd's `valid_utf8` is taken to be that same rule.
#[verifier::external_body]
fn is_utf8(bytes: &[u8]) -> (r: bool)
    ensures
        r == vstd::utf8::valid_utf8(bytes@),
{
    std::str::from_utf8(bytes).is_ok()
}

/// The length header for a word of `len` bytes.
pub fn encode_length(len: usize) -> (r: Vec<u8>)
    ensures
        r@ == spec_encode_length(len),
{
    let mut r: Vec<u8> = Vec::new();
    if len < 0x80 {
        r.push(len as u8);
    } else if len < 0x4000 {
        r.push(((len >> 8) | 0x80) as u8);
        r.push((len & 0xFF) as u8);
    } else if len < 0x200000 {
        r.push(((len >> 16) | 0xC0) as u8);
        r.push(((len >> 8) & 0xFF) as u8);
        r.push((len & 0xFF) as u8);
    } else {
        r.push(((len >> 24) | 0xE0) as u8);
        r.push(((len >> 16) & 0xFF) as u8);
        r.push(((len >> 8) & 0xFF) as u8);
        r.push((len & 0xFF) as u8);
    }
    assert(r@ =~= spec_encode_length(len));
    r
}

/// Appends one word, header first, to `out`.
pub fn encode_word(out: &mut Vec<u8>, data: &[u8])
    ensures
        final(out)@ == old(out)@ + spec_encode_word(data@),
{
    let header = encode_length(data.len());
    out.extend_from_slice(header.as_slice());
    out.extend_from_slice(data);
    assert(final(out)@ =~= old(out)@ + spec_encode_word(data@));
}

/// The bytes of a whole sentence: every word, then the terminating zero byte.
pub fn encode_sentence(words: &Vec<Vec<u8>>) -> (r: Vec<u8>)
    ensures
        r@ == spec_encode_sentence(words_view(words@)),
{
    let mut out: Vec<u8> = Vec::new();
    let mut i: usize = 0;
    while i < words.len()
        invariant
            i <= words.len(),
            out@ == spec_encode_words(words_view(words@).take(i as int)),
        decreases words.len() - i,
    {
        encode_word(&mut out, words[i].as_slice());
        proof {
            let ws = words_view(words@);
            assert(ws.take(i + 1).drop_last() =~= ws.take(i as int));
        }
        i = i + 1;
    }
    out.push(0u8);
    proof {
        assert(words_view(words@).take(words.len() as int) =~= words_view(words@));
    }
    out
}

/// The size of the header that starts with `first`, or 0 when none does.
fn header_size_of(first: u8) -> (r: usize)
    ensures
        r == header_size(first),
{
    if first < 0x80 {
        1
    } else if first < 0xC0 {
        2
    } else if first < 0xE0 {
        3
    } else if first < 0xF0 {
        4
    } else {
        0
    }
}

/// The length announced by the header of `h` bytes at `pos` in `buf`.
fn decode_length_at(buf: &[u8], pos: usize, h: usize) -> (r: usize)
    requires
        pos + h <= buf@.len(),
        1 <= h <= 4,
        h == header_size(buf@[pos as int]),
    ensures
        r == spec_decode_length(buf@.skip(pos as int).take(h as int)),
{
    let first = buf[pos];
    let ghost hd = buf@.skip(pos as int).take(h as int);
    assert(hd[0] == first);
    if first < 0x80 {
        first as usize
    } else if first < 0xC0 {
        assert(hd[1] == buf@[pos + 1]);
        (((first as usize) & 0x3F) << 8) | (buf[pos + 1] as usize)
    } else if first < 0xE0 {
        assert(hd[1] == buf@[pos + 1]);
        assert(hd[2] == buf@[pos + 2]);
        (((first as usize) & 0x1F) << 16) | ((buf[pos + 1] as usize) << 8) | (buf[pos + 2] as usize)
    } else {
        assert(hd[1] == buf@[pos + 1]);
        assert(hd[2] == buf@[pos + 2]);
        assert(hd[3] == buf@[pos + 3]);
        (((first as usize) & 0x0F) << 24) | ((buf[pos + 1] as usize) << 16) | ((buf[pos + 2]
            as usize) << 8) | (buf[pos + 3] as usize)
    }
}

/// An announced length is always below 2^28.
proof fn lemma_decoded_length_bound(h: Seq<u8>)
    requires
        h.len() >= 1,
        h.len() == header_size(h[0]),
    ensures
        spec_decode_length(h) < 0x10000000,
{
    let first = h[0];
    if first < 0x80 {
    } else if first < 0xC0 {
        let b1 = h[1];
        assert((((first as usize) & 0x3F) << 8) | (b1 as usize) < 0x10000000) by (bit_vector);
    } else if first < 0xE0 {
        let b1 = h[1];
        let b2 = h[2];
        assert((((first as usize) & 0x1F) << 16) | ((b1 as usize) << 8) | (b2 as usize)
            < 0x10000000) by (bit_vector);
    } else {
        let b1 = h[1];
        let b2 = h[2];
        let b3 = h[3];
        assert((((first as usize) & 0x0F) << 24) | ((b1 as usize) << 16) | ((b2 as usize) << 8)
            | (b3 as usize) < 0x10000000) by (bit_vector);
    }
}

/// Reads one sentence from the front of `buf`: the words, once the buffer
/// holds all of them and the closing empty word; otherwise how many more bytes
/// to read before deciding, or why the bytes are no sentence.
pub fn decode_sentence(buf: &[u8]) -> (r: Parsed)
    ensures
        r.spec_view() == parse_sentence(buf@),
{
    let mut pos: usize = 0;
    let mut words: Vec<Vec<u8>> = Vec::new();
    proof {
        assert(buf@.skip(0) =~= buf@);
        assert(words_view(words@) =~= Seq::<Seq<u8>>::empty());
        match parse_sentence(buf@) {
            SpecParse::Complete(ws2, n) => {
                assert(Seq::<Seq<u8>>::empty() + ws2 =~= ws2);
            },
            _ => {},
        }
    }
    loop
        invariant
            pos <= buf@.len(),
            parse_sentence(buf@) == after_words(
                words_view(words@),
                pos as nat,
                parse_sentence(buf@.skip(pos as int)),
            ),
        decreases buf@.len() - pos,
    {
        let ghost rest = buf@.skip(pos as int);
        let avail = buf.len() - pos;
        if avail == 0 {
            return Parsed::NeedMore(1);
        }
        assert(rest[0] == buf@[pos as int]);
        let h = header_size_of(buf[pos]);
        if h == 0 {
            return Parsed::Invalid(WireError::UnsupportedPrefix(buf[pos]));
        }
        if avail < h {
            return Parsed::NeedMore(h - avail);
        }
        let len = decode_length_at(buf, pos, h);
        proof {
            lemma_decoded_length_bound(rest.take(h as int));
        }
        if len == 0 {
            proof {
                assert(words_view(words@) + Seq::<Seq<u8>>::empty() =~= words_view(words@));
            }
            return Parsed::Complete(words, pos + h);
        }
        if avail - h < len {
            return Parsed::NeedMore(h + len - avail);
        }
        let start = pos + h;
        let end = start + len;
        let word = vstd::slice::slice_to_vec(vstd::slice::slice_subrange(buf, start, end));
        assert(word@ =~= rest.subrange(h as int, h + len));
        if !is_utf8(word.as_slice()) {
            return Parsed::Invalid(WireError::NotUtf8);
        }
        let ghost before = words_view(words@);
        words.push(word);
        proof {
            assert(words_view(words@) =~= before + seq![rest.subrange(h as int, h + len)]);
            assert(rest.skip(h + len) =~= buf@.skip(end as int));
            let tail = parse_sentence(buf@.skip(end as int));
            match tail {
                SpecParse::Complete(ws2, n) => {
                    assert(before + (seq![rest.subrange(h as int, h + len)] + ws2) =~= (before
                        + seq![rest.subrange(h as int, h + len)]) + ws2);
                },
                _ => {},
            }
        }
        pos = end;
    }
}


/// Decoding the header that `encode_length` writes gives back the length,
/// for every length below 2^28 (the largest that four header bytes hold).
pub proof fn lemma_length_roundtrip(len: usize)
    requires
        len < 0x10000000,
    ensures
        spec_encode_length(len).len() == header_size(spec_encode_length(len)[0]),
        spec_decode_length(spec_encode_length(len)) == len,
{
    let e = spec_encode_length(len);
    if len < 0x80 {
        assert(((len as u8) as usize) == len && (len as u8) < 0x80) by (bit_vector)
            requires
                len < 0x80,
        ;
    } else if len < 0x4000 {
        let b0 = ((len >> 8) | 0x80) as u8;
        let b1 = (len & 0xFF) as u8;
        assert(0x80 <= b0 < 0xC0 && ((((b0 as usize) & 0x3F) << 8) | (b1 as usize)) == len)
            by (bit_vector)
            requires
                0x80 <= len < 0x4000,
                b0 == ((len >> 8) | 0x80) as u8,
                b1 == (len & 0xFF) as u8,
        ;
    } else if len < 0x200000 {
        let b0 = ((len >> 16) | 0xC0) as u8;
        let b1 = ((len >> 8) & 0xFF) as u8;
        let b2 = (len & 0xFF) as u8;
        assert(0xC0 <= b0 < 0xE0 && ((((b0 as usize) & 0x1F) << 16) | ((b1 as usize) << 8) | (
        b2 as usize)) == len) by (bit_vector)
            requires
                0x4000 <= len < 0x200000,
                b0 == ((len >> 16) | 0xC0) as u8,
                b1 == ((len >> 8) & 0xFF) as u8,
                b2 == (len & 0xFF) as u8,
        ;
    } else {
        let b0 = ((len >> 24) | 0xE0) as u8;
        let b1 = ((len >> 16) & 0xFF) as u8;
        let b2 = ((len >> 8) & 0xFF) as u8;
        let b3 = (len & 0xFF) as u8;
        assert(0xE0 <= b0 < 0xF0 && ((((b0 as usize) & 0x0F) << 24) | ((b1 as usize) << 16) | (
        (b2 as usize) << 8) | (b3 as usize)) == len) by (bit_vector)
            requires
                0x200000 <= len < 0x10000000,
                b0 == ((len >> 24) | 0xE0) as u8,
                b1 == ((len >> 16) & 0xFF) as u8,
                b2 == ((len >> 8) & 0xFF) as u8,
                b3 == (len & 0xFF) as u8,
        ;
    }
}

/// The words that a sentence can carry and get back unchanged: each is
/// non-empty (an empty word would end the sentence), shorter than 2^28 bytes,
/// and valid UTF-8.
pub open spec fn sendable_words(ws: Seq<Seq<u8>>) -> bool {
    forall|i: int|
        0 <= i < ws.len() ==> 0 < #[trigger] ws[i].len() < 0x10000000 && vstd::utf8::valid_utf8(
            ws[i],
        )
}

proof fn lemma_encode_words_front(ws: Seq<Seq<u8>>)
    requires
        ws.len() > 0,
    ensures
        spec_encode_words(ws) == spec_encode_word(ws[0]) + spec_encode_words(ws.drop_first()),
    decreases ws.len(),
{
    if ws.len() == 1 {
        assert(ws.drop_last() =~= Seq::<Seq<u8>>::empty());
        assert(ws.drop_first() =~= Seq::<Seq<u8>>::empty());
        assert(spec_encode_words(ws) =~= spec_encode_word(ws[0]) + spec_encode_words(
            ws.drop_first(),
        ));
    } else {
        lemma_encode_words_front(ws.drop_last());
        assert(ws.drop_last().drop_first() =~= ws.drop_first().drop_last());
        assert(ws.drop_first().last() == ws.last());
        assert(spec_encode_words(ws) =~= spec_encode_word(ws[0]) + spec_encode_words(
            ws.drop_first(),
        ));
    }
}

/// Reading back a sentence that `encode_sentence` wrote gives its words and
/// its exact length, whatever bytes follow it on the stream.
#[verifier::rlimit(40)]
pub proof fn lemma_sentence_roundtrip(ws: Seq<Seq<u8>>, rest: Seq<u8>)
    requires
        sendable_words(ws),
    ensures
        parse_sentence(spec_encode_sentence(ws) + rest) == SpecParse::Complete(
            ws,
            spec_encode_sentence(ws).len(),
        ),
    decreases ws.len(),
{
    let buf = spec_encode_sentence(ws) + rest;
    if ws.len() == 0 {
        assert(spec_encode_words(ws) =~= Seq::<u8>::empty());
        assert(buf[0] == 0u8);
        assert(buf.take(1) =~= seq![0u8]);
        assert(spec_encode_sentence(ws).len() == 1);
        assert(ws =~= Seq::<Seq<u8>>::empty());
    } else {
        let w = ws[0];
        let tail = ws.drop_first();
        lemma_encode_words_front(ws);
        let hdr = spec_encode_length(w.len() as usize);
        lemma_length_roundtrip(w.len() as usize);
        let h = hdr.len() as int;
        let len = w.len() as int;
        assert(buf =~= hdr + (w + (spec_encode_sentence(tail) + rest)));
        assert(buf[0] == hdr[0]);
        assert(buf.take(h) =~= hdr);
        assert(buf.subrange(h, h + len) =~= w);
        assert(buf.skip(h + len) =~= spec_encode_sentence(tail) + rest);
        assert forall|i: int| 0 <= i < tail.len() implies 0 < #[trigger] tail[i].len() < 0x10000000
            && vstd::utf8::valid_utf8(tail[i]) by {
            assert(tail[i] == ws[i + 1]);
        }
        lemma_sentence_roundtrip(tail, rest);
        assert(seq![w] + tail =~= ws);
        assert(spec_decode_length(buf.take(h)) == len);
        assert(buf.len() >= h + len);
        assert(vstd::utf8::valid_utf8(w));
        assert(header_size(buf[0]) == h);
        assert(spec_encode_sentence(ws).len() == h + len + spec_encode_sentence(tail).len());
    }
}

/// While only a proper prefix of a sentence has arrived, reading asks for more
/// bytes, and never for more than the sentence still has: a reader that reads
/// exactly what is asked for stops at the sentence's last byte.
pub proof fn lemma_sentence_prefix(ws: Seq<Seq<u8>>, k: int)
    requires
        sendable_words(ws),
        0 <= k < spec_encode_sentence(ws).len(),
    ensures
        parse_sentence(spec_encode_sentence(ws).take(k)) matches SpecParse::NeedMore(n) && 0 < n
            && k + n <= spec_encode_sentence(ws).len(),
    decreases ws.len(),
{
    let enc = spec_encode_sentence(ws);
    let buf = enc.take(k);
    if ws.len() == 0 {
        assert(spec_encode_words(ws) =~= Seq::<u8>::empty());
        assert(k == 0);
    } else if k == 0 {
    } else {
        let w = ws[0];
        let tail = ws.drop_first();
        lemma_encode_words_front(ws);
        let hdr = spec_encode_length(w.len() as usize);
        lemma_length_roundtrip(w.len() as usize);
        let h = hdr.len() as int;
        let len = w.len() as int;
        assert(enc =~= hdr + (w + spec_encode_sentence(tail)));
        assert(buf[0] == hdr[0]);
        if k < h {
        } else {
            assert(buf.take(h) =~= hdr);
            if k < h + len {
            } else {
                assert(buf.subrange(h, h + len) =~= w);
                assert(buf.skip(h + len) =~= spec_encode_sentence(tail).take(k - h - len));
                assert forall|i: int| 0 <= i < tail.len() implies 0 < #[trigger] tail[i].len()
                    < 0x10000000 && vstd::utf8::valid_utf8(tail[i]) by {
                    assert(tail[i] == ws[i + 1]);
                }
                lemma_sentence_prefix(tail, k - h - len);
            }
        }
    }
}


/// The length header is the length in big-endian bytes, as few as hold it,
/// with the high bits of the first byte marking the size: one byte below
/// 0x80; two bytes, read as a number, equal to the length plus 0x8000 below
/// 0x4000; three bytes equal to it plus 0xC00000 below 0x200000; and four
/// bytes equal to it plus 0xE0000000 below 2^28.
pub proof fn lemma_header_layout(len: usize)
    requires
        len < 0x10000000,
    ensures
        len < 0x80 ==> spec_encode_length(len) == seq![len as u8],
        0x80 <= len < 0x4000 ==> spec_encode_length(len).len() == 2 && spec_encode_length(len)[0]
            * 0x100 + spec_encode_length(len)[1] == len + 0x8000,
        0x4000 <= len < 0x200000 ==> spec_encode_length(len).len() == 3 && spec_encode_length(
            len,
        )[0] * 0x10000 + spec_encode_length(len)[1] * 0x100 + spec_encode_length(len)[2] == len
            + 0xC00000,
        0x200000 <= len ==> spec_encode_length(len).len() == 4 && spec_encode_length(len)[0]
            * 0x1000000 + spec_encode_length(len)[1] * 0x10000 + spec_encode_length(len)[2] * 0x100
            + spec_encode_length(len)[3] == len + 0xE0000000,
{
    let e = spec_encode_length(len);
    if len < 0x80 {
    } else if len < 0x4000 {
        let b0 = ((len >> 8) | 0x80) as u8;
        let b1 = (len & 0xFF) as u8;
        assert((b0 as int) * 0x100 + (b1 as int) == (len as int) + 0x8000) by (bit_vector)
            requires
                0x80 <= len < 0x4000,
                b0 == ((len >> 8) | 0x80) as u8,
                b1 == (len & 0xFF) as u8,
        ;
    } else if len < 0x200000 {
        let b0 = ((len >> 16) | 0xC0) as u8;
        let b1 = ((len >> 8) & 0xFF) as u8;
        let b2 = (len & 0xFF) as u8;
        assert((b0 as int) * 0x10000 + (b1 as int) * 0x100 + (b2 as int) == (len as int)
            + 0xC00000) by (bit_vector)
            requires
                0x4000 <= len < 0x200000,
                b0 == ((len >> 16) | 0xC0) as u8,
                b1 == ((len >> 8) & 0xFF) as u8,
                b2 == (len & 0xFF) as u8,
        ;
    } else {
        let b0 = ((len >> 24) | 0xE0) as u8;
        let b1 = ((len >> 16) & 0xFF) as u8;
        let b2 = ((len >> 8) & 0xFF) as u8;
        let b3 = (len & 0xFF) as u8;
        assert((b0 as int) * 0x1000000 + (b1 as int) * 0x10000 + (b2 as int) * 0x100 + (b3 as int)
            == (len as int) + 0xE0000000) by (bit_vector)
            requires
                0x200000 <= len < 0x10000000,
                b0 == ((len >> 24) | 0xE0) as u8,
                b1 == ((len >> 16) & 0xFF) as u8,
                b2 == ((len >> 8) & 0xFF) as u8,
                b3 == (len & 0xFF) as u8,
        ;
    }
}

} // verus!
