use base64::Engine as _;
use owntier::network::{
    compose_as, create, is_record_file, list, list_lines, network_file_name, random_as, record_lines, NetworkRecord,
};
use std::path::Path;

fn rec(name: &str, as_number: u32) -> NetworkRecord {
    NetworkRecord { name: name.to_string(), as_number, device_id: "d".to_string(), wg_public_key: [0u8; 32] }
}

#[test]
fn random_as_ranges() {
    for _ in 0..1000 {
        let a = random_as();
        let high = a >> 16;
        let low = a & 0xFFFF;
        assert!((1..=65535).contains(&high), "{a:#x}");
        assert!((65000..=65535).contains(&low), "{a:#x}");
    }
}

#[test]
fn as_number_composition() {
    assert_eq!(compose_as(1, 65000), 0x0001_FDE8);
    assert_eq!(compose_as(0xFFFF, 0xFFFF), u32::MAX);
}

#[test]
fn record_file_name() {
    assert_eq!(network_file_name("mymesh"), b"mymesh.cbor".to_vec());
}

#[test]
fn create_keeps_given_as_or_draws_one() {
    let r = create("mymesh", Some(64512), "abc".to_string(), [3u8; 32]);
    assert_eq!(r.name, "mymesh");
    assert_eq!(r.as_number, 64512);
    assert_eq!(r.device_id, "abc");
    assert_eq!(r.wg_public_key, [3u8; 32]);
    let r = create("mymesh", None, "abc".to_string(), [3u8; 32]);
    assert!(r.as_number >> 16 >= 1 && (r.as_number & 0xFFFF) >= 65000);
}

#[test]
fn list_sorts_by_name() {
    let sorted = list(vec![rec("zeta", 1), rec("alpha", 2), rec("Mid", 3), rec("alpha", 4)]);
    let names: Vec<(String, u32)> = sorted.iter().map(|r| (r.name.clone(), r.as_number)).collect();
    assert_eq!(
        names,
        vec![("Mid".to_string(), 3), ("alpha".to_string(), 2), ("alpha".to_string(), 4), ("zeta".to_string(), 1)]
    );
    assert!(list(Vec::new()).is_empty());
}

#[test]
fn record_files_by_extension() {
    for name in ["home.cbor", "a.b.cbor", "..cbor", ".cbor", "cbor", "home.cbor.bak", "home.CBOR", "home.", "x.cbor"] {
        let by_path = Path::new(name).extension().and_then(|e| e.to_str()) == Some("cbor");
        assert_eq!(is_record_file(name.as_bytes()), by_path, "{name}");
    }
    assert!(is_record_file(b"mymesh.cbor"));
    assert!(!is_record_file(b".cbor"));
}

fn text(lines: Vec<Vec<u8>>) -> Vec<String> {
    lines.into_iter().map(|l| String::from_utf8(l).unwrap()).collect()
}

#[test]
fn record_is_shown_like_the_cli() {
    let r = NetworkRecord { name: "mymesh".to_string(), as_number: 0x0001_FDE8, device_id: "a1b2c3d4e5f60718".to_string(), wg_public_key: [9u8; 32] };
    let b64 = base64::engine::general_purpose::STANDARD.encode(r.wg_public_key);
    assert_eq!(
        text(record_lines(&r)),
        vec![
            "name       : mymesh".to_string(),
            format!("as         : {} (0x{:08x})", r.as_number, r.as_number),
            "device_id  : a1b2c3d4e5f60718".to_string(),
            format!("wg_pubkey  : {b64}"),
        ]
    );
    assert_eq!(text(record_lines(&rec("x", 10)))[1], "as         : 10 (0x0000000a)");
}

#[test]
fn networks_are_listed_like_the_cli() {
    assert_eq!(text(list_lines(&Vec::new())), vec!["No networks found.".to_string()]);
    let records = vec![rec("alpha", 4_200_000_000), rec("ünïcödé-name-that-is-long", 7)];
    let mut want = vec![
        format!("{:<20}  {:<12}  {:<16}  {}", "name", "as", "device_id", "wg_pubkey"),
        "-".repeat(84),
    ];
    for r in &records {
        let b64 = base64::engine::general_purpose::STANDARD.encode(r.wg_public_key);
        want.push(format!("{:<20}  {:<12}  {:<16}  {}", r.name, r.as_number, r.device_id, b64));
    }
    let short = NetworkRecord { name: "ü".to_string(), as_number: 1, device_id: "é".to_string(), wg_public_key: [1u8; 32] };
    let b64 = base64::engine::general_purpose::STANDARD.encode(short.wg_public_key);
    assert_eq!(text(list_lines(&vec![short]))[2], format!("{:<20}  {:<12}  {:<16}  {}", "ü", 1, "é", b64));
    assert_eq!(text(list_lines(&records)), want);
}
