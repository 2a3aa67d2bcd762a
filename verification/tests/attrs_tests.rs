use owntier::attrs::{parse_attrs, Attrs};

fn words(ws: &[&str]) -> Vec<Vec<u8>> {
    ws.iter().map(|w| w.as_bytes().to_vec()).collect()
}

fn pairs(a: &Attrs) -> Vec<(String, String)> {
    a.entries()
        .iter()
        .map(|(k, v)| (String::from_utf8(k.clone()).unwrap(), String::from_utf8(v.clone()).unwrap()))
        .collect()
}

#[test]
fn attribute_words_become_entries() {
    let a = parse_attrs(&words(&["=name=wg-home", "=.id=*1", "=comment=a=b", "plain", "=noequals", "?x=y"]));
    assert_eq!(
        pairs(&a),
        vec![
            (".id".to_string(), "*1".to_string()),
            ("comment".to_string(), "a=b".to_string()),
            ("name".to_string(), "wg-home".to_string()),
        ]
    );
    assert_eq!(a.get(b".id"), Some(&b"*1".to_vec()));
    assert_eq!(a.get(b"plain"), None);
}

#[test]
fn later_word_wins() {
    let a = parse_attrs(&words(&["=k=first", "=k=second"]));
    assert_eq!(a.len(), 1);
    assert_eq!(a.get(b"k"), Some(&b"second".to_vec()));
}

#[test]
fn empty_key_and_value() {
    let a = parse_attrs(&words(&["==v", "=k="]));
    assert_eq!(a.get(b""), Some(&b"v".to_vec()));
    assert_eq!(a.get(b"k"), Some(&Vec::new()));
}

#[test]
fn insert_keeps_keys_in_order_and_replaces() {
    let mut a = Attrs::new();
    a.insert(b"port".to_vec(), b"1".to_vec());
    a.insert(b"host".to_vec(), b"h".to_vec());
    a.insert(b"wg_ip".to_vec(), b"10.0.0.1/24".to_vec());
    a.insert(b"port".to_vec(), b"2".to_vec());
    assert_eq!(
        pairs(&a),
        vec![
            ("host".to_string(), "h".to_string()),
            ("port".to_string(), "2".to_string()),
            ("wg_ip".to_string(), "10.0.0.1/24".to_string()),
        ]
    );
}
