//! Plugin configurations, stored encrypted to the device key of their network.
//!
//! A sealed configuration is `ephemeral public key (32) | nonce (12) |
//! ciphertext with tag`: an ephemeral X25519 key agreement with the device's
//! public key, HKDF-SHA256 of the shared secret, and AES-256-GCM. What is
//! sealed is the configuration written as a CBOR map of text strings.
use std::collections::BTreeMap;
use vstd::prelude::*;
use crate::attrs::{from_pairs, insert_sorted, keys_sorted, pairs_view, Attrs};
use crate::bytes::{lex_lt, ends_with, has_prefix, has_suffix, push_str, slice_vec, starts_with, text};
use crate::sort::{keys_ascending, keys_of, sort_by_key};
use crate::wire::words_view;
use crate::crypto::{
    aes256gcm_decrypt, aes256gcm_encrypt, aes_decrypt, aes_encrypt, aes_gcm_max_plaintext,
    ephemeral_agreement, hkdf_expand, hkdf_sha256, public_key, random_nonce, static_agreement, x25519,
    x25519_public,
};

verus! {

/// Why a plugin configuration could not be sealed or opened.
#[derive(Clone, Copy, Debug, PartialEq, Eq, Structural)]
pub enum PluginError {
    /// The configuration is too large for AES-GCM.
    Encrypt,
    /// The stored blob is shorter than a key, a nonce and a tag.
    BlobTooShort,
    /// The blob does not decrypt under the device key.
    Decrypt,
    /// The decrypted configuration is not a CBOR map of text strings.
    Decode,
}

/// The key-derivation label of plugin configurations.
pub open spec fn config_info() -> Seq<u8> {
    text("owntier-plugin-config")
}

/// The AES key derived from a shared secret.
pub open spec fn config_key(shared: Seq<u8>) -> Seq<u8> {
    hkdf_sha256(shared, config_info())
}

/// `blob` is `plaintext` sealed to the device whose public key is
/// `device_public`: an ephemeral public key from which the holder of the
/// device secret reaches the shared secret, a nonce, and the encryption under
/// the key derived from that secret, which decrypts to the plaintext.
pub open spec fn sealed(blob: Seq<u8>, plaintext: Seq<u8>, device_public: Seq<u8>) -> bool {
    exists|eph: Seq<u8>, shared: Seq<u8>, nonce: Seq<u8>, ct: Seq<u8>|
        #![trigger eph + nonce + ct, config_key(shared)]
        {
            &&& eph.len() == 32
            &&& shared.len() == 32
            &&& nonce.len() == 12
            &&& blob == eph + nonce + ct
            &&& forall|s: Seq<u8>|
                s.len() == 32 && device_public == #[trigger] x25519_public(s) ==> x25519(s, eph)
                    == shared
            &&& ct == aes256gcm_encrypt(config_key(shared), nonce, plaintext)
            &&& ct.len() == plaintext.len() + 16
            &&& aes256gcm_decrypt(config_key(shared), nonce, ct) == Some(plaintext)
        }
}

/// What opening `blob` with the device secret gives.
pub open spec fn spec_open(blob: Seq<u8>, device_secret: Seq<u8>) -> Result<Seq<u8>, PluginError> {
    if blob.len() < 32 + 12 + 16 {
        Err(PluginError::BlobTooShort)
    } else {
        let eph = blob.take(32);
        let nonce = blob.subrange(32, 44);
        let ct = blob.skip(44);
        match aes256gcm_decrypt(config_key(x25519(device_secret, eph)), nonce, ct) {
            Some(p) => Ok(p),
            None => Err(PluginError::Decrypt),
        }
    }
}

/// Seals `plaintext` to the device whose public key is `device_pubkey`.
/// It fails only when the plaintext is too large for AES-GCM.
pub fn seal(plaintext: &[u8], device_pubkey: &[u8; 32]) -> (r: Result<Vec<u8>, PluginError>)
    ensures
        match r {
            Ok(blob) => sealed(blob@, plaintext@, device_pubkey@),
            Err(e) => e == PluginError::Encrypt && plaintext@.len() > aes_gcm_max_plaintext(),
        },
{
    let (eph_public, shared) = ephemeral_agreement(device_pubkey);
    let key = hkdf_expand(&shared, "owntier-plugin-config".as_bytes());
    let nonce = random_nonce();
    let ciphertext = match aes_encrypt(&key, &nonce, plaintext) {
        Some(c) => c,
        None => {
            return Err(PluginError::Encrypt);
        },
    };
    let mut blob: Vec<u8> = Vec::new();
    blob.extend_from_slice(&eph_public);
    blob.extend_from_slice(&nonce);
    blob.extend_from_slice(ciphertext.as_slice());
    proof {
        assert(blob@ =~= eph_public@ + nonce@ + ciphertext@);
        assert(key@ == config_key(shared@));
    }
    Ok(blob)
}

/// The 32 bytes from `start` of `s`, as an array.
fn take_array_32(s: &[u8], start: usize) -> (r: [u8; 32])
    requires
        start + 32 <= s@.len(),
    ensures
        r@ == s@.subrange(start as int, start + 32),
{
    let mut r = [0u8; 32];
    let mut i: usize = 0;
    while i < 32
        invariant
            i <= 32,
            start + 32 <= s@.len(),
            s@.len() == s.len(),
            forall|j: int| 0 <= j < i ==> r@[j] == s@[start + j],
        decreases 32 - i,
    {
        let b = s[start + i];
        r[i] = b;
        i = i + 1;
    }
    assert(r@ =~= s@.subrange(start as int, start + 32));
    r
}

/// The 12 bytes from `start` of `s`, as an array.
fn take_array_12(s: &[u8], start: usize) -> (r: [u8; 12])
    requires
        start + 12 <= s@.len(),
    ensures
        r@ == s@.subrange(start as int, start + 12),
{
    let mut r = [0u8; 12];
    let mut i: usize = 0;
    while i < 12
        invariant
            i <= 12,
            start + 12 <= s@.len(),
            s@.len() == s.len(),
            forall|j: int| 0 <= j < i ==> r@[j] == s@[start + j],
        decreases 12 - i,
    {
        let b = s[start + i];
        r[i] = b;
        i = i + 1;
    }
    assert(r@ =~= s@.subrange(start as int, start + 12));
    r
}

/// Opens a sealed plugin configuration with the device secret.
pub fn open(blob: &[u8], device_secret: &[u8; 32]) -> (r: Result<Vec<u8>, PluginError>)
    ensures
        match r {
            Ok(p) => spec_open(blob@, device_secret@) == Ok::<Seq<u8>, PluginError>(p@),
            Err(e) => spec_open(blob@, device_secret@) == Err::<Seq<u8>, PluginError>(e),
        },
{
    if blob.len() < 32 + 12 + 16 {
        return Err(PluginError::BlobTooShort);
    }
    let eph = take_array_32(blob, 0);
    let nonce = take_array_12(blob, 32);
    let ciphertext = vstd::slice::slice_subrange(blob, 44, blob.len());
    assert(eph@ =~= blob@.take(32));
    assert(ciphertext@ =~= blob@.skip(44));
    let shared = static_agreement(device_secret, &eph);
    let key = hkdf_expand(&shared, "owntier-plugin-config".as_bytes());
    match aes_decrypt(&key, &nonce, ciphertext) {
        Some(p) => Ok(p),
        None => Err(PluginError::Decrypt),
    }
}

/// What a configuration sealed to a device's public key is opened to with
/// that device's secret: the configuration itself.
pub proof fn lemma_open_sealed(blob: Seq<u8>, plaintext: Seq<u8>, device_secret: Seq<u8>)
    requires
        device_secret.len() == 32,
        sealed(blob, plaintext, x25519_public(device_secret)),
    ensures
        spec_open(blob, device_secret) == Ok::<Seq<u8>, PluginError>(plaintext),
{
    let (eph, shared, nonce, ct) = choose|eph: Seq<u8>, shared: Seq<u8>, nonce: Seq<u8>, ct: Seq<u8>|
        {
            &&& eph.len() == 32
            &&& shared.len() == 32
            &&& nonce.len() == 12
            &&& blob == eph + nonce + ct
            &&& forall|s: Seq<u8>|
                s.len() == 32 && x25519_public(device_secret) == #[trigger] x25519_public(s)
                    ==> x25519(s, eph) == shared
            &&& ct == aes256gcm_encrypt(config_key(shared), nonce, plaintext)
            &&& ct.len() == plaintext.len() + 16
            &&& aes256gcm_decrypt(config_key(shared), nonce, ct) == Some(plaintext)
        };
    assert(x25519(device_secret, eph) == shared);
    assert(blob.take(32) =~= eph);
    assert(blob.subrange(32, 44) =~= nonce);
    assert(blob.skip(44) =~= ct);
}



/// The public key that configurations for the holder of `secret` are sealed
/// to: the X25519 public key of the device secret.
pub fn device_public_key(secret: &[u8; 32]) -> (r: [u8; 32])
    ensures
        r@ == x25519_public(secret@),
{
    public_key(secret)
}

/// The CBOR bytes that ciborium writes for the map from each key to its value,
/// keys and values as text strings.
pub uninterp spec fn cbor_text_map(entries: Seq<(Seq<u8>, Seq<u8>)>) -> Seq<u8>;

/// The entries, in key order, of the map of text strings that ciborium reads
/// from `bytes`; `None` when the bytes are not such a map.
pub uninterp spec fn cbor_text_map_decode(bytes: Seq<u8>) -> Option<Seq<(Seq<u8>, Seq<u8>)>>;

/// Every key and value is valid UTF-8.
pub open spec fn all_utf8(entries: Seq<(Seq<u8>, Seq<u8>)>) -> bool {
    forall|i: int|
        0 <= i < entries.len() ==> vstd::utf8::valid_utf8(#[trigger] entries[i].0)
            && vstd::utf8::valid_utf8(entries[i].1)
}

/// Setting a key to UTF-8 text keeps every key and value UTF-8.
pub proof fn lemma_insert_utf8(s: Seq<(Seq<u8>, Seq<u8>)>, k: Seq<u8>, v: Seq<u8>)
    requires
        all_utf8(s),
        vstd::utf8::valid_utf8(k),
        vstd::utf8::valid_utf8(v),
    ensures
        all_utf8(insert_sorted(s, k, v)),
    decreases s.len(),
{
    if s.len() == 0 {
        let r = seq![(k, v)];
        assert(r[0] == (k, v));
        assert(insert_sorted(s, k, v) == r);
        assert(all_utf8(r));
    } else if s[0].0 == k {
        let r = s.update(0, (k, v));
        assert forall|i: int| 0 <= i < r.len() implies vstd::utf8::valid_utf8(#[trigger] r[i].0)
            && vstd::utf8::valid_utf8(r[i].1) by {
            if i > 0 {
                assert(r[i] == s[i]);
            }
        }
        assert(all_utf8(r));
        assert(insert_sorted(s, k, v) == r);
    } else if lex_lt(k, s[0].0) {
        let r = seq![(k, v)] + s;
        assert forall|i: int| 0 <= i < r.len() implies vstd::utf8::valid_utf8(#[trigger] r[i].0)
            && vstd::utf8::valid_utf8(r[i].1) by {
            if i > 0 {
                assert(r[i] == s[i - 1]);
            }
        }
        assert(all_utf8(r));
        assert(insert_sorted(s, k, v) == r);
    } else {
        let t = s.drop_first();
        assert forall|i: int| 0 <= i < t.len() implies vstd::utf8::valid_utf8(#[trigger] t[i].0)
            && vstd::utf8::valid_utf8(t[i].1) by {
            assert(t[i] == s[i + 1]);
        }
        lemma_insert_utf8(t, k, v);
        let rt = insert_sorted(t, k, v);
        let r = seq![s[0]] + rt;
        assert forall|i: int| 0 <= i < r.len() implies vstd::utf8::valid_utf8(#[trigger] r[i].0)
            && vstd::utf8::valid_utf8(r[i].1) by {
            if i > 0 {
                assert(r[i] == rt[i - 1]);
            }
        }
        assert(all_utf8(r));
        assert(insert_sorted(s, k, v) == r);
    }
}

/// Setting UTF-8 keys to UTF-8 values gives a configuration of UTF-8 text.
pub proof fn lemma_from_pairs_utf8(pairs: Seq<(Seq<u8>, Seq<u8>)>)
    requires
        all_utf8(pairs),
    ensures
        all_utf8(from_pairs(pairs)),
    decreases pairs.len(),
{
    if pairs.len() > 0 {
        let init = pairs.drop_last();
        assert forall|i: int| 0 <= i < init.len() implies vstd::utf8::valid_utf8(#[trigger] init[i].0)
            && vstd::utf8::valid_utf8(init[i].1) by {
            assert(init[i] == pairs[i]);
        }
        lemma_from_pairs_utf8(init);
        let last = pairs.last();
        assert(vstd::utf8::valid_utf8(pairs[pairs.len() - 1].0));
        lemma_insert_utf8(from_pairs(init), last.0, last.1);
    }
}

/// Writes the entries as a CBOR map of text strings (`ciborium::into_writer`
/// on a `BTreeMap<String, String>`).
///
/// Trusted: the bytes are what ciborium writes for the map, a function of the
/// entries alone; writing into a vector does not fail. As a serde format, what
/// ciborium writes it reads back: for distinct keys in order and text that is
/// valid UTF-8, reading the bytes gives the same entries.
#[verifier::external_body]
fn cbor_encode(entries: &Vec<(Vec<u8>, Vec<u8>)>) -> (r: Vec<u8>)
    ensures
        r@ == cbor_text_map(pairs_view(entries@)),
        keys_sorted(pairs_view(entries@)) && all_utf8(pairs_view(entries@)) ==> cbor_text_map_decode(r@)
            == Some(pairs_view(entries@)),
{
    let map: BTreeMap<String, String> = entries
        .iter()
        .map(|(k, v)| (String::from_utf8_lossy(k).into_owned(), String::from_utf8_lossy(v).into_owned()))
        .collect();
    let mut buf = Vec::new();
    ciborium::into_writer(&map, &mut buf).expect("writing CBOR into a vector does not fail");
    buf
}

/// Reads a CBOR map of text strings (`ciborium::from_reader` into a
/// `BTreeMap<String, String>`), its entries in key order.
///
/// Trusted: the result is what ciborium reads from the bytes; a `BTreeMap`
/// gives its entries in increasing key order, and `String` orders by bytes.
#[verifier::external_body]
fn cbor_decode(bytes: &[u8]) -> (r: Option<Vec<(Vec<u8>, Vec<u8>)>>)
    ensures
        match r {
            Some(v) => cbor_text_map_decode(bytes@) == Some(pairs_view(v@)),
            None => cbor_text_map_decode(bytes@) is None,
        },
        r matches Some(v) ==> keys_sorted(pairs_view(v@)),
{
    ciborium::from_reader::<BTreeMap<String, String>, _>(bytes)
        .ok()
        .map(|m| m.into_iter().map(|(k, v)| (k.into_bytes(), v.into_bytes())).collect())
}

/// A plugin configuration as stored before sealing: a CBOR map of text strings.
pub fn encode_config(values: &Attrs) -> (r: Vec<u8>)
    ensures
        r@ == cbor_text_map(values@),
        all_utf8(values@) ==> cbor_text_map_decode(r@) == Some(values@),
{
    cbor_encode(values.entries())
}

/// A plugin configuration read back from its CBOR bytes.
pub fn decode_config(bytes: &[u8]) -> (r: Option<Attrs>)
    ensures
        match r {
            Some(a) => cbor_text_map_decode(bytes@) == Some(a@),
            None => cbor_text_map_decode(bytes@) is None,
        },
{
    match cbor_decode(bytes) {
        Some(v) => Some(Attrs::from_sorted(v)),
        None => None,
    }
}

/// `blob` is the configuration `values` sealed to `device_public`, in an
/// encoding that reads back to the same entries when they are UTF-8 text.
pub open spec fn sealed_config(blob: Seq<u8>, values: Seq<(Seq<u8>, Seq<u8>)>, device_public: Seq<u8>) -> bool {
    &&& sealed(blob, cbor_text_map(values), device_public)
    &&& all_utf8(values) ==> cbor_text_map_decode(cbor_text_map(values)) == Some(values)
}

/// What loading the stored `blob` with the device secret gives.
pub open spec fn spec_open_config(blob: Seq<u8>, device_secret: Seq<u8>) -> Result<Seq<(Seq<u8>, Seq<u8>)>, PluginError> {
    match spec_open(blob, device_secret) {
        Ok(p) => match cbor_text_map_decode(p) {
            Some(a) => Ok(a),
            None => Err(PluginError::Decode),
        },
        Err(e) => Err(e),
    }
}

/// Seals a plugin configuration to the device whose public key is
/// `device_pubkey`, ready to be stored; it fails only when the encoded
/// configuration is too large for AES-GCM.
pub fn seal_config(values: &Attrs, device_pubkey: &[u8; 32]) -> (r: Result<Vec<u8>, PluginError>)
    ensures
        match r {
            Ok(blob) => sealed_config(blob@, values@, device_pubkey@),
            Err(e) => e == PluginError::Encrypt && cbor_text_map(values@).len() > aes_gcm_max_plaintext(),
        },
{
    let plaintext = encode_config(values);
    seal(plaintext.as_slice(), device_pubkey)
}

/// Loads a stored plugin configuration with the device secret.
pub fn open_config(blob: &[u8], device_secret: &[u8; 32]) -> (r: Result<Attrs, PluginError>)
    ensures
        match r {
            Ok(a) => spec_open_config(blob@, device_secret@) == Ok::<Seq<(Seq<u8>, Seq<u8>)>, PluginError>(a@),
            Err(e) => spec_open_config(blob@, device_secret@) == Err::<Seq<(Seq<u8>, Seq<u8>)>, PluginError>(e),
        },
{
    let plaintext = open(blob, device_secret)?;
    match decode_config(plaintext.as_slice()) {
        Some(a) => Ok(a),
        None => Err(PluginError::Decode),
    }
}

/// Loading after attaching gives the attached configuration: a configuration
/// of UTF-8 text sealed to a device's public key loads back, key for key, with
/// that device's secret.
pub proof fn lemma_load_after_attach(
    blob: Seq<u8>,
    values: Seq<(Seq<u8>, Seq<u8>)>,
    device_secret: Seq<u8>,
)
    requires
        device_secret.len() == 32,
        sealed_config(blob, values, x25519_public(device_secret)),
        all_utf8(values),
    ensures
        spec_open_config(blob, device_secret) == Ok::<Seq<(Seq<u8>, Seq<u8>)>, PluginError>(values),
{
    lemma_open_sealed(blob, cbor_text_map(values), device_secret);
}


/// Stored configurations keep the original format: the AES key is
/// HKDF-SHA256, without salt, of the X25519 shared secret with the info
/// `owntier-plugin-config`, and a blob is opened with the key that the device
/// secret shares with the ephemeral key in its first 32 bytes, the nonce in the
/// next 12 and the ciphertext in the rest.
pub proof fn lemma_stored_format(blob: Seq<u8>, device_secret: Seq<u8>, shared: Seq<u8>)
    ensures
        config_key(shared) == hkdf_sha256(shared, text("owntier-plugin-config")),
        blob.len() >= 60 ==> spec_open(blob, device_secret) == match aes256gcm_decrypt(
            hkdf_sha256(x25519(device_secret, blob.take(32)), text("owntier-plugin-config")),
            blob.subrange(32, 44),
            blob.skip(44),
        ) {
            Some(p) => Ok::<Seq<u8>, PluginError>(p),
            None => Err(PluginError::Decrypt),
        },
        blob.len() < 60 ==> spec_open(blob, device_secret) == Err::<Seq<u8>, PluginError>(
            PluginError::BlobTooShort,
        ),
{
}

/// The file a plugin configuration is kept in, under the plugins directory:
/// `<network>.<plugin type>.bin`.
pub open spec fn plugin_file(network: Seq<u8>, plugin_type: Seq<u8>) -> Seq<u8> {
    network + text(".") + plugin_type + text(".bin")
}

/// The file name of the `plugin_type` configuration of `network`.
pub fn plugin_file_name(network: &str, plugin_type: &str) -> (r: Vec<u8>)
    ensures
        r@ == plugin_file(text(network), text(plugin_type)),
{
    let mut r: Vec<u8> = Vec::new();
    push_str(&mut r, network);
    push_str(&mut r, ".");
    push_str(&mut r, plugin_type);
    push_str(&mut r, ".bin");
    assert(r@ =~= plugin_file(text(network), text(plugin_type)));
    r
}

/// The plugin type that file `file` holds for `network`, if it holds one:
/// the part between `<network>.` and `.bin`.
pub open spec fn attached_type(file: Seq<u8>, network: Seq<u8>) -> Option<Seq<u8>> {
    let prefix = network + text(".");
    if has_prefix(file, prefix) && has_suffix(file.skip(prefix.len() as int), text(".bin")) {
        let rest = file.skip(prefix.len() as int);
        Some(rest.take(rest.len() - text(".bin").len()))
    } else {
        None
    }
}

/// The plugin types that a list of files holds for `network`, in file order.
pub open spec fn attached_types(files: Seq<Seq<u8>>, network: Seq<u8>) -> Seq<Seq<u8>>
    decreases files.len(),
{
    if files.len() == 0 {
        Seq::empty()
    } else {
        let before = attached_types(files.drop_last(), network);
        match attached_type(files.last(), network) {
            Some(t) => before.push(t),
            None => before,
        }
    }
}

/// The file that a configuration is stored in names its plugin type.
pub proof fn lemma_plugin_file_type(network: Seq<u8>, plugin_type: Seq<u8>)
    ensures
        attached_type(plugin_file(network, plugin_type), network) == Some(plugin_type),
{
    let file = plugin_file(network, plugin_type);
    let prefix = network + text(".");
    assert(file.take(prefix.len() as int) =~= prefix);
    let rest = file.skip(prefix.len() as int);
    assert(rest =~= plugin_type + text(".bin"));
    assert(rest.skip(rest.len() - text(".bin").len()) =~= text(".bin"));
    assert(rest.take(rest.len() - text(".bin").len()) =~= plugin_type);
}

/// The plugin type file `file` holds for `network`, if any.
fn file_plugin_type(file: &[u8], network: &str) -> (r: Option<Vec<u8>>)
    ensures
        match r {
            Some(t) => attached_type(file@, text(network)) == Some(t@),
            None => attached_type(file@, text(network)) is None,
        },
{
    let mut prefix: Vec<u8> = Vec::new();
    push_str(&mut prefix, network);
    push_str(&mut prefix, ".");
    assert(prefix@ =~= text(network) + text("."));
    if !starts_with(file, prefix.as_slice()) {
        return None;
    }
    let rest = vstd::slice::slice_subrange(file, prefix.len(), file.len());
    assert(rest@ =~= file@.skip(prefix@.len() as int));
    let suffix = ".bin".as_bytes();
    if !ends_with(rest, suffix) {
        return None;
    }
    let t = slice_vec(rest, 0, rest.len() - suffix.len());
    assert(t@ =~= rest@.take(rest@.len() - text(".bin").len()));
    Some(t)
}

/// The plugin types attached to `network`, given the names of the files in
/// the plugins directory: sorted, each as often as a file holds it.
pub fn list_attached(file_names: &Vec<Vec<u8>>, network: &str) -> (r: Vec<Vec<u8>>)
    ensures
        keys_ascending(keys_of(r@)),
        keys_of(r@).to_multiset() == attached_types(words_view(file_names@), text(network)).to_multiset(),
{
    let mut types: Vec<Vec<u8>> = Vec::new();
    let mut i: usize = 0;
    while i < file_names.len()
        invariant
            i <= file_names@.len(),
            keys_of(types@) == attached_types(words_view(file_names@).take(i as int), text(network)),
        decreases file_names.len() - i,
    {
        let ghost files = words_view(file_names@);
        let ghost before = types@;
        proof {
            assert(files.take(i + 1).drop_last() =~= files.take(i as int));
            assert(files.take(i + 1).last() == file_names@[i as int]@);
        }
        match file_plugin_type(file_names[i].as_slice(), network) {
            Some(t) => {
                types.push(t);
                assert(keys_of(types@) =~= keys_of(before).push(types@.last()@));
            },
            None => {},
        }
        i = i + 1;
    }
    proof {
        assert(words_view(file_names@).take(i as int) =~= words_view(file_names@));
    }
    sort_by_key(types)
}

} // verus!
