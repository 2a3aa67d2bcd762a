use owntier::wire::{decode_sentence, encode_length, encode_sentence, encode_word, Parsed, WireError};

fn words(ws: &[&str]) -> Vec<Vec<u8>> {
    ws.iter().map(|w| w.as_bytes().to_vec()).collect()
}

#[test]
fn length_header_sizes() {
    assert_eq!(encode_length(0), vec![0x00]);
    assert_eq!(encode_length(0x7f), vec![0x7f]);
    assert_eq!(encode_length(0x80), vec![0x80, 0x80]);
    assert_eq!(encode_length(0x3fff), vec![0xbf, 0xff]);
    assert_eq!(encode_length(0x4000), vec![0xc0, 0x40, 0x00]);
    assert_eq!(encode_length(0x1f_ffff), vec![0xdf, 0xff, 0xff]);
    assert_eq!(encode_length(0x20_0000), vec![0xe0, 0x20, 0x00, 0x00]);
    assert_eq!(encode_length(0x0fff_ffff), vec![0xef, 0xff, 0xff, 0xff]);
}

#[test]
fn word_is_header_then_bytes() {
    let mut out = vec![9u8];
    encode_word(&mut out, b"/login");
    assert_eq!(out, [&[9u8, 6][..], b"/login"].concat());
}

#[test]
fn sentence_ends_with_zero() {
    let bytes = encode_sentence(&words(&["/login", "=name=admin"]));
    let mut expected = vec![6u8];
    expected.extend_from_slice(b"/login");
    expected.push(11);
    expected.extend_from_slice(b"=name=admin");
    expected.push(0);
    assert_eq!(bytes, expected);
}

#[test]
fn sentence_roundtrip() {
    let ws = words(&["!re", "=.id=*1", "=name=wg-home"]);
    let long = vec![b'x'; 0x4100];
    let mut all = ws.clone();
    all.push(long);
    let mut bytes = encode_sentence(&all);
    let len = bytes.len();
    bytes.extend_from_slice(&[7, 7, 7]);
    match decode_sentence(&bytes) {
        Parsed::Complete(got, used) => {
            assert_eq!(got, all);
            assert_eq!(used, len);
        }
        _ => panic!("sentence not decoded"),
    }
}

#[test]
fn empty_sentence() {
    match decode_sentence(&[0]) {
        Parsed::Complete(got, used) => {
            assert!(got.is_empty());
            assert_eq!(used, 1);
        }
        _ => panic!("empty sentence not decoded"),
    }
}

#[test]
fn prefix_asks_for_the_rest() {
    let bytes = encode_sentence(&words(&["!done"]));
    assert!(matches!(decode_sentence(&[]), Parsed::NeedMore(1)));
    assert!(matches!(decode_sentence(&bytes[..1]), Parsed::NeedMore(5)));
    assert!(matches!(decode_sentence(&bytes[..3]), Parsed::NeedMore(3)));
    assert!(matches!(decode_sentence(&bytes[..6]), Parsed::NeedMore(1)));
    // a two-byte header that has only its first byte
    assert!(matches!(decode_sentence(&[0x81]), Parsed::NeedMore(1)));
}

#[test]
fn reading_exactly_what_is_asked_stops_at_the_end() {
    let bytes = encode_sentence(&words(&["!re", "=a=b", "=c=d"]));
    let mut buf: Vec<u8> = Vec::new();
    loop {
        match decode_sentence(&buf) {
            Parsed::NeedMore(n) => {
                let start = buf.len();
                buf.extend_from_slice(&bytes[start..start + n]);
            }
            Parsed::Complete(got, used) => {
                assert_eq!(got, words(&["!re", "=a=b", "=c=d"]));
                assert_eq!(used, bytes.len());
                assert_eq!(buf.len(), bytes.len());
                break;
            }
            Parsed::Invalid(_) => panic!("invalid"),
        }
    }
}

#[test]
fn unsupported_prefix_is_refused() {
    assert!(matches!(decode_sentence(&[0xf0]), Parsed::Invalid(WireError::UnsupportedPrefix(0xf0))));
    assert!(matches!(decode_sentence(&[0xff, 1, 2]), Parsed::Invalid(WireError::UnsupportedPrefix(0xff))));
}

#[test]
fn non_utf8_word_is_refused() {
    assert!(matches!(decode_sentence(&[2, 0xc3, 0x28, 0]), Parsed::Invalid(WireError::NotUtf8)));
}

#[test]
fn multibyte_header_decodes() {
    let mut bytes = vec![0x80, 0x81];
    bytes.extend(std::iter::repeat(b'a').take(0x81));
    bytes.push(0);
    match decode_sentence(&bytes) {
        Parsed::Complete(got, used) => {
            assert_eq!(got.len(), 1);
            assert_eq!(got[0].len(), 0x81);
            assert_eq!(used, bytes.len());
        }
        _ => panic!("not decoded"),
    }
}
