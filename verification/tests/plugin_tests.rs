use owntier::attrs::Attrs;
use owntier::plugin::{
    decode_config, device_public_key, encode_config, list_attached, open, open_config, plugin_file_name, seal,
    seal_config, PluginError,
};
use std::collections::BTreeMap;
use x25519_dalek::{PublicKey, StaticSecret};

fn keypair(seed: u8) -> ([u8; 32], [u8; 32]) {
    let secret = [seed; 32];
    let public = PublicKey::from(&StaticSecret::from(secret)).to_bytes();
    (secret, public)
}

#[test]
fn open_gives_back_what_seal_sealed() {
    let (secret, public) = keypair(5);
    let plaintext = b"\xa1dhostk192.168.88.1".to_vec();
    let blob = seal(&plaintext, &public).unwrap();
    assert_eq!(blob.len(), 32 + 12 + plaintext.len() + 16);
    assert_ne!(&blob[44..44 + plaintext.len()], &plaintext[..]);
    assert_eq!(open(&blob, &secret).unwrap(), plaintext);
}

#[test]
fn empty_plaintext_round_trips() {
    let (secret, public) = keypair(9);
    let blob = seal(&[], &public).unwrap();
    assert_eq!(blob.len(), 60);
    assert_eq!(open(&blob, &secret).unwrap(), Vec::<u8>::new());
}

#[test]
fn each_seal_is_fresh() {
    let (_, public) = keypair(5);
    let a = seal(b"same", &public).unwrap();
    let b = seal(b"same", &public).unwrap();
    assert_ne!(a, b);
}

#[test]
fn wrong_key_does_not_open() {
    let (_, public) = keypair(5);
    let (other_secret, _) = keypair(6);
    let blob = seal(b"config", &public).unwrap();
    assert_eq!(open(&blob, &other_secret), Err(PluginError::Decrypt));
}

#[test]
fn tampered_blob_does_not_open() {
    let (secret, public) = keypair(5);
    let mut blob = seal(b"config", &public).unwrap();
    let last = blob.len() - 1;
    blob[last] ^= 1;
    assert_eq!(open(&blob, &secret), Err(PluginError::Decrypt));
}

#[test]
fn short_blob_is_refused() {
    let (secret, _) = keypair(5);
    assert_eq!(open(&[0u8; 59], &secret), Err(PluginError::BlobTooShort));
    assert_eq!(open(&[], &secret), Err(PluginError::BlobTooShort));
}

#[test]
fn file_names() {
    assert_eq!(plugin_file_name("home", "mikrotik"), b"home.mikrotik.bin".to_vec());
}

#[test]
fn attached_types_are_listed_sorted() {
    let files: Vec<Vec<u8>> = ["home.mikrotik.bin", "home.linux.bin", "other.mikrotik.bin", "home.txt", "homer.vyos.bin", "home..bin"]
        .iter()
        .map(|f| f.as_bytes().to_vec())
        .collect();
    let types = list_attached(&files, "home");
    assert_eq!(types, vec![b"".to_vec(), b"linux".to_vec(), b"mikrotik".to_vec()]);
    assert!(list_attached(&Vec::new(), "home").is_empty());
    let file = plugin_file_name("net", "vyos");
    assert_eq!(list_attached(&vec![file], "net"), vec![b"vyos".to_vec()]);
}

fn sample_config() -> Attrs {
    let mut a = Attrs::new();
    for (k, v) in [("host", "192.168.88.1"), ("port", "8728"), ("password", "pässwörd"), ("wg_ip", "10.0.0.1/24")] {
        a.insert(k.as_bytes().to_vec(), v.as_bytes().to_vec());
    }
    a
}

#[test]
fn device_public_key_is_the_x25519_public_key() {
    let secret = [42u8; 32];
    assert_eq!(device_public_key(&secret), PublicKey::from(&StaticSecret::from(secret)).to_bytes());
    assert_ne!(device_public_key(&secret), secret);
}

#[test]
fn sealed_to_the_device_public_key_opens_with_its_secret() {
    let secret = [11u8; 32];
    let public = device_public_key(&secret);
    let blob = seal(b"plugin config", &public).unwrap();
    assert_eq!(open(&blob, &secret).unwrap(), b"plugin config".to_vec());
}

#[test]
fn config_encoding_is_a_cbor_map_of_text() {
    let a = sample_config();
    let bytes = encode_config(&a);
    let map: BTreeMap<String, String> = ciborium::from_reader(bytes.as_slice()).unwrap();
    assert_eq!(map.len(), 4);
    assert_eq!(map["password"], "pässwörd");
    let back = decode_config(&bytes).unwrap();
    assert_eq!(back.entries(), a.entries());
    assert!(decode_config(b"not cbor").is_none());
    assert!(decode_config(&[0x01]).is_none());
}

#[test]
fn load_after_attach_gives_the_attached_config() {
    let secret = [23u8; 32];
    let public = device_public_key(&secret);
    let a = sample_config();
    let blob = seal_config(&a, &public).unwrap();
    let back = open_config(&blob, &secret).unwrap();
    assert_eq!(back.entries(), a.entries());
    assert!(matches!(open_config(&blob, &[24u8; 32]), Err(PluginError::Decrypt)));
}

#[test]
fn undecodable_config_is_refused() {
    let secret = [23u8; 32];
    let public = device_public_key(&secret);
    let blob = seal(b"\xff\xff", &public).unwrap();
    assert!(matches!(open_config(&blob, &secret), Err(PluginError::Decode)));
}
