//! Network records: one per WireGuard + BGP mesh network this node takes part in.
use rand::Rng;
use vstd::prelude::*;
use crate::bytes::{
    base64_encode, base64_standard, bytes_eq, char_count, decimal, hex_digits, pad, push_decimal,
    push_hex, push_padded, push_str, str_bytes, string_bytes, text, utf8,
};
use crate::wire::words_view;
use crate::sort::{keys_ascending, keys_of, sort_by_key};

verus! {

/// A network this node takes part in.
pub struct NetworkRecord {
    pub name: String,
    /// The 32-bit BGP AS number of this node.
    pub as_number: u32,
    /// The p43 device id of the key that identifies this node.
    pub device_id: String,
    /// X25519 public key of the device key, used directly as the WireGuard public key.
    pub wg_public_key: [u8; 32],
}

/// A random number from `low` to `high` inclusive (`thread_rng().gen_range(low..=high)`).
///
/// Trusted: the result lies in the range, as the documentation of `gen_range`
/// says; the range is not empty (the call panics on an empty one).
#[verifier::external_body]
fn random_in_range(low: u32, high: u32) -> (r: u32)
    requires
        low <= high,
    ensures
        low <= r <= high,
{
    rand::thread_rng().gen_range(low..=high)
}

/// An AS number is well chosen when its upper 16 bits are 1 to 65535 and its
/// lower 16 bits lie in the private 16-bit range 65000 to 65535.
pub open spec fn is_generated_as(n: u32) -> bool {
    1 <= n / 0x10000 <= 65535 && 65000 <= n % 0x10000 <= 65535
}

/// The AS number made of upper and lower 16 bits.
pub fn compose_as(high: u32, low: u32) -> (r: u32)
    requires
        high <= 0xFFFF,
        low <= 0xFFFF,
    ensures
        r == high * 0x10000 + low,
        r / 0x10000 == high,
        r % 0x10000 == low,
{
    assert((high << 16) | low == high * 0x10000 + low) by (bit_vector)
        requires
            high <= 0xFFFF,
            low <= 0xFFFF,
    ;
    (high << 16) | low
}

/// A random 32-bit BGP AS number: upper 16 bits from 1 to 65535, lower 16
/// bits from the private 16-bit range 65000 to 65535.
pub fn random_as() -> (r: u32)
    ensures
        is_generated_as(r),
{
    let high = random_in_range(1, 65535);
    let low = random_in_range(65000, 65535);
    compose_as(high, low)
}

/// The file a network record is kept in, under the networks directory.
pub open spec fn record_file(name: Seq<u8>) -> Seq<u8> {
    name + text(".cbor")
}

/// The file name of the record of network `name`.
pub fn network_file_name(name: &str) -> (r: Vec<u8>)
    ensures
        r@ == record_file(text(name)),
{
    let mut r: Vec<u8> = Vec::new();
    push_str(&mut r, name);
    push_str(&mut r, ".cbor");
    assert(r@ =~= record_file(text(name)));
    r
}

/// The record of a new network `name` on the device key `device_id` /
/// `wg_public_key`, with the AS number given or else a random one.
pub fn create(name: &str, as_number: Option<u32>, device_id: String, wg_public_key: [u8; 32]) -> (r:
    NetworkRecord)
    ensures
        r.name@ == name@,
        r.device_id == device_id,
        r.wg_public_key == wg_public_key,
        match as_number {
            Some(n) => r.as_number == n,
            None => is_generated_as(r.as_number),
        },
{
    let as_number = match as_number {
        Some(n) => n,
        None => random_as(),
    };
    NetworkRecord { name: name.to_owned(), as_number, device_id, wg_public_key }
}

/// Networks in name order: the records given, sorted by name.
pub fn list(records: Vec<NetworkRecord>) -> (r: Vec<NetworkRecord>)
    ensures
        keys_ascending(keys_of(r@)),
        r@.to_multiset() == records@.to_multiset(),
{
    sort_by_key(records)
}


/// The extension of a file name, as `Path::extension` finds it: the part
/// after the last `.`, unless there is no `.` or the only one starts the name.
pub open spec fn extension(name: Seq<u8>) -> Option<Seq<u8>> {
    if exists|i: int| 1 <= i < name.len() && name[i] == 46u8 {
        let i = choose|i: int|
            1 <= i < name.len() && name[i] == 46u8 && forall|j: int| i < j < name.len() ==> name[j] != 46u8;
        Some(name.skip(i + 1))
    } else {
        None
    }
}

/// Whether a file in the networks directory holds a record: its extension is `cbor`.
pub fn is_record_file(name: &[u8]) -> (r: bool)
    ensures
        r == (extension(name@) == Some(text("cbor"))),
{
    let mut i: usize = name.len();
    while i > 1 && name[i - 1] != 46u8
        invariant
            i <= name@.len(),
            forall|j: int| i <= j < name@.len() ==> name@[j] != 46u8,
        decreases i,
    {
        i = i - 1;
    }
    // `i - 1` is the last dot when it lies after the first byte
    if i <= 1 {
        proof {
            assert(!exists|k: int| 1 <= k < name@.len() && name@[k] == 46u8);
        }
        return false;
    }
    let dot = i - 1;
    proof {
        let w = choose|k: int|
            1 <= k < name@.len() && name@[k] == 46u8 && forall|j: int| k < j < name@.len() ==> name@[j] != 46u8;
        assert(1 <= dot < name@.len() && name@[dot as int] == 46u8);
        if w < dot {
        } else if w > dot {
        }
    }
    let ext = vstd::slice::slice_subrange(name, i, name.len());
    assert(ext@ =~= name@.skip(i as int));
    bytes_eq(ext, "cbor".as_bytes())
}


/// A saved record is found again when listing: the file of a network with a
/// non-empty name has the extension `cbor`. (The file of the empty name,
/// `.cbor`, has none.)
pub proof fn lemma_record_file_listed(name: Seq<u8>)
    requires
        name.len() > 0,
    ensures
        extension(record_file(name)) == Some(text("cbor")),
{
    reveal_strlit(".cbor");
    reveal_strlit("cbor");
    vstd::string::is_ascii_spec_bytes(".cbor");
    vstd::string::is_ascii_spec_bytes("cbor");
    let f = record_file(name);
    let d = name.len() as int;
    assert(f[d] == 46u8);
    assert(forall|j: int| d < j < f.len() ==> f[j] != 46u8);
    let w = choose|i: int|
        1 <= i < f.len() && f[i] == 46u8 && forall|j: int| i < j < f.len() ==> f[j] != 46u8;
    if w < d {
    } else if w > d {
    }
    assert(f.skip(d + 1) =~= text("cbor"));
}


/// The lines that show a network record.
pub open spec fn record_text(r: NetworkRecord) -> Seq<Seq<u8>> {
    seq![
        text("name       : ") + utf8(r.name@),
        text("as         : ") + decimal(r.as_number as nat) + text(" (0x") + hex_digits(
            r.as_number as nat,
            8,
        ) + text(")"),
        text("device_id  : ") + utf8(r.device_id@),
        text("wg_pubkey  : ") + base64_standard(r.wg_public_key@),
    ]
}

/// The lines that show a network record: name, AS number in decimal and in
/// hexadecimal, device id and the WireGuard public key in base64.
pub fn record_lines(r: &NetworkRecord) -> (lines: Vec<Vec<u8>>)
    ensures
        words_view(lines@) == record_text(*r),
{
    let mut lines: Vec<Vec<u8>> = Vec::new();
    let ghost want = record_text(*r);
    let mut l = str_bytes("name       : ");
    l.extend_from_slice(string_bytes(&r.name).as_slice());
    assert(l@ =~= want[0]);
    lines.push(l);
    let mut l = str_bytes("as         : ");
    push_decimal(&mut l, r.as_number);
    push_str(&mut l, " (0x");
    push_hex(&mut l, r.as_number, 8);
    push_str(&mut l, ")");
    assert(l@ =~= want[1]);
    lines.push(l);
    let mut l = str_bytes("device_id  : ");
    l.extend_from_slice(string_bytes(&r.device_id).as_slice());
    assert(l@ =~= want[2]);
    lines.push(l);
    let mut l = str_bytes("wg_pubkey  : ");
    l.extend_from_slice(base64_encode(&r.wg_public_key).as_slice());
    assert(l@ =~= want[3]);
    lines.push(l);
    assert(words_view(lines@)[0] == want[0]);
    assert(words_view(lines@)[1] == want[1]);
    assert(words_view(lines@)[2] == want[2]);
    assert(words_view(lines@)[3] == want[3]);
    assert(words_view(lines@) =~= record_text(*r));
    lines
}

/// The heading of the network list.
pub open spec fn list_header() -> Seq<u8> {
    text("name                  as            device_id         wg_pubkey")
}

/// The row of the network list that shows `r`: name, AS number and device id
/// in columns of 20, 12 and 16 characters, then the public key in base64.
pub open spec fn list_row(r: NetworkRecord) -> Seq<u8> {
    pad(utf8(r.name@), r.name@.len(), 20) + text("  ") + pad(
        decimal(r.as_number as nat),
        decimal(r.as_number as nat).len(),
        12,
    ) + text("  ") + pad(utf8(r.device_id@), r.device_id@.len(), 16) + text("  ")
        + base64_standard(r.wg_public_key@)
}

/// The lines that list networks: a note when there are none, else a heading,
/// a rule of 84 dashes and one row per record, in the order given.
pub open spec fn list_text(records: Seq<NetworkRecord>) -> Seq<Seq<u8>> {
    if records.len() == 0 {
        seq![text("No networks found.")]
    } else {
        seq![list_header(), Seq::new(84, |i: int| 45u8)] + records.map_values(
            |r: NetworkRecord| list_row(r),
        )
    }
}

/// One row of the network list.
fn list_row_line(r: &NetworkRecord) -> (l: Vec<u8>)
    ensures
        l@ == list_row(*r),
{
    let mut l: Vec<u8> = Vec::new();
    push_padded(&mut l, string_bytes(&r.name).as_slice(), char_count(r.name.as_str()), 20);
    push_str(&mut l, "  ");
    let mut digits: Vec<u8> = Vec::new();
    push_decimal(&mut digits, r.as_number);
    assert(digits@ =~= decimal(r.as_number as nat));
    push_padded(&mut l, digits.as_slice(), digits.len(), 12);
    push_str(&mut l, "  ");
    push_padded(&mut l, string_bytes(&r.device_id).as_slice(), char_count(r.device_id.as_str()), 16);
    push_str(&mut l, "  ");
    l.extend_from_slice(base64_encode(&r.wg_public_key).as_slice());
    assert(l@ =~= list_row(*r));
    l
}

/// The lines that list the networks `records`.
pub fn list_lines(records: &Vec<NetworkRecord>) -> (lines: Vec<Vec<u8>>)
    ensures
        words_view(lines@) == list_text(records@),
{
    let mut lines: Vec<Vec<u8>> = Vec::new();
    if records.len() == 0 {
        lines.push(str_bytes("No networks found."));
        assert(words_view(lines@) =~= list_text(records@));
        return lines;
    }
    lines.push(str_bytes("name                  as            device_id         wg_pubkey"));
    let mut rule: Vec<u8> = Vec::new();
    let mut k: usize = 0;
    while k < 84
        invariant
            k <= 84,
            rule@ == Seq::new(k as nat, |i: int| 45u8),
        decreases 84 - k,
    {
        rule.push(45u8);
        k = k + 1;
        assert(rule@ =~= Seq::new(k as nat, |i: int| 45u8));
    }
    lines.push(rule);
    let mut i: usize = 0;
    while i < records.len()
        invariant
            i <= records@.len(),
            words_view(lines@) == seq![list_header(), Seq::new(84, |j: int| 45u8)] + records@.take(
                i as int,
            ).map_values(|r: NetworkRecord| list_row(r)),
        decreases records.len() - i,
    {
        let l = list_row_line(&records[i]);
        let ghost before = words_view(lines@);
        lines.push(l);
        assert(records@.take(i + 1).map_values(|r: NetworkRecord| list_row(r)) =~= records@.take(
            i as int,
        ).map_values(|r: NetworkRecord| list_row(r)).push(list_row(records@[i as int])));
        assert(words_view(lines@) =~= before.push(list_row(records@[i as int])));
        i = i + 1;
    }
    assert(records@.take(i as int) =~= records@);
    lines
}

} // verus!
