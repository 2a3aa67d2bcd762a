use base64::Engine as _;
use owntier::attrs::{parse_attrs, Attrs};
use owntier::deploy::{deploy, display_sentence, DeployAction, DeployError, DeployFlags, Section};
use owntier::network::NetworkRecord;

fn record() -> NetworkRecord {
    NetworkRecord {
        name: "home".to_string(),
        as_number: 4_200_000_000,
        device_id: "0011223344556677".to_string(),
        wg_public_key: [7u8; 32],
    }
}

fn config(pairs: &[(&str, &str)]) -> Attrs {
    let mut a = Attrs::new();
    for (k, v) in pairs {
        a.insert(k.as_bytes().to_vec(), v.as_bytes().to_vec());
    }
    a
}

fn flags(stopped: bool, verbose: bool, dry_run: bool) -> DeployFlags {
    DeployFlags { stopped, verbose, dry_run }
}

fn show(a: &DeployAction) -> String {
    match a {
        DeployAction::Connect => "connect".to_string(),
        DeployAction::Print(l) => format!("print {}", String::from_utf8(l.clone()).unwrap()),
        DeployAction::Query(ws, echo) => format!("query{} {}", if *echo { "+echo" } else { "" }, join(ws)),
        DeployAction::Send(ws) => format!("send {}", join(ws)),
    }
}

fn join(ws: &[Vec<u8>]) -> String {
    ws.iter().map(|w| String::from_utf8(w.clone()).unwrap()).collect::<Vec<_>>().join(" ")
}

fn words(ws: &[&str]) -> Vec<Vec<u8>> {
    ws.iter().map(|w| w.as_bytes().to_vec()).collect()
}

#[test]
fn missing_and_invalid_settings() {
    let r = record();
    let key = [1u8; 32];
    let f = flags(false, false, false);
    assert!(matches!(deploy(&r, key, &config(&[("wg_ip", "10.0.0.1/24")]), &f), Err(DeployError::MissingHost)));
    assert!(matches!(
        deploy(&r, key, &config(&[("host", "h"), ("port", "http"), ("wg_ip", "x")]), &f),
        Err(DeployError::InvalidPort)
    ));
    assert!(matches!(deploy(&r, key, &config(&[("host", "h")]), &f), Err(DeployError::MissingWgIp)));
    assert!(matches!(
        deploy(&r, key, &config(&[("host", "h"), ("wg_ip", "x"), ("wg_port", "70000")]), &f),
        Err(DeployError::InvalidWgPort)
    ));
    // host is checked before port
    assert!(matches!(deploy(&r, key, &config(&[("port", "bad")]), &f), Err(DeployError::MissingHost)));
}

#[test]
fn defaults_and_given_values() {
    let r = record();
    let key = [1u8; 32];
    let d = deploy(&r, key, &config(&[("host", "192.168.88.1"), ("wg_ip", "10.0.0.1/24")]), &flags(true, false, false)).unwrap();
    let st = d.get_settings();
    assert_eq!(st.host, b"192.168.88.1".to_vec());
    assert_eq!(st.port, 8728);
    assert!(!st.ssl);
    assert_eq!(st.user, b"admin".to_vec());
    assert_eq!(st.password, Vec::<u8>::new());
    assert_eq!(st.wg_name, b"wg-home".to_vec());
    assert_eq!(st.wg_port, 51820);
    assert_eq!(st.disabled, b"yes".to_vec());
    assert_eq!(st.bgp_template, b"owntier-home".to_vec());
    assert_eq!(st.as_number, 4_200_000_000);
    let b64 = base64::engine::general_purpose::STANDARD.encode(key);
    assert_eq!(st.private_key, b64.into_bytes());
    assert_ne!(st.private_key, key.to_vec());

    let d = deploy(
        &r,
        key,
        &config(&[
            ("host", "router"),
            ("port", "8729"),
            ("ssl", "true"),
            ("user", "ops"),
            ("password", "pw"),
            ("wg_name", "wg0"),
            ("wg_ip", "10.1.0.1/16"),
            ("wg_port", "13231"),
        ]),
        &flags(false, false, false),
    )
    .unwrap();
    let st = d.get_settings();
    assert_eq!(st.port, 8729);
    assert!(st.ssl);
    assert_eq!(st.user, b"ops".to_vec());
    assert_eq!(st.password, b"pw".to_vec());
    assert_eq!(st.wg_name, b"wg0".to_vec());
    assert_eq!(st.wg_port, 13231);
    assert_eq!(st.disabled, b"no".to_vec());
    // only exactly "true" turns TLS on
    let d = deploy(&r, key, &config(&[("host", "h"), ("wg_ip", "x"), ("ssl", "yes")]), &flags(false, false, false)).unwrap();
    assert!(!d.get_settings().ssl);
}

#[test]
fn dry_run_prints_everything_and_sends_nothing() {
    let r = record();
    let key = [1u8; 32];
    let b64 = base64::engine::general_purpose::STANDARD.encode(key);
    let mut d = deploy(&r, key, &config(&[("host", "h"), ("wg_ip", "10.0.0.1/24")]), &flags(false, false, true)).unwrap();
    let mut trace: Vec<String> = Vec::new();
    let mut rows: Vec<Attrs> = Vec::new();
    while !d.is_finished() {
        for a in d.step(&rows).unwrap() {
            trace.push(show(&a));
        }
        rows = Vec::new();
    }
    assert_eq!(
        trace,
        vec![
            "print   [query]  /interface/wireguard/print ?name=wg-home".to_string(),
            "print   creating WireGuard interface wg-home".to_string(),
            format!("print   [dry-run] /interface/wireguard/add name=\"wg-home\" listen-port=\"51820\" private-key=\"{b64}\" disabled=\"no\""),
            "print   [query]  /ip/address/print ?interface=wg-home".to_string(),
            "print   assigning IP 10.0.0.1/24 to wg-home".to_string(),
            "print   [dry-run] /ip/address/add address=\"10.0.0.1/24\" interface=\"wg-home\"".to_string(),
            "print   [query]  /routing/bgp/template/print ?name=owntier-home".to_string(),
            "print   creating BGP template owntier-home (AS 4200000000)".to_string(),
            "print   [dry-run] /routing/bgp/template/add name=\"owntier-home\" as=\"4200000000\"".to_string(),
            "print   (dry-run complete — nothing sent)".to_string(),
        ]
    );
    assert!(d.step(&Vec::new()).unwrap().is_empty());
}

#[test]
fn live_run_updates_existing_entries() {
    let r = record();
    let key = [2u8; 32];
    let b64 = base64::engine::general_purpose::STANDARD.encode(key);
    let mut d = deploy(&r, key, &config(&[("host", "h"), ("wg_ip", "10.0.0.1/24")]), &flags(true, false, false)).unwrap();
    let first: Vec<String> = d.step(&Vec::new()).unwrap().iter().map(show).collect();
    assert_eq!(first, vec!["connect".to_string(), "query /interface/wireguard/print ?name=wg-home".to_string()]);
    let existing = vec![parse_attrs(&words(&["=.id=*5", "=name=wg-home"]))];
    let second: Vec<String> = d.step(&existing).unwrap().iter().map(show).collect();
    assert_eq!(
        second,
        vec![
            "print   updating WireGuard interface wg-home".to_string(),
            format!("send /interface/wireguard/set =.id=*5 =listen-port=51820 =private-key={b64} =disabled=yes"),
            "query /ip/address/print ?interface=wg-home".to_string(),
        ]
    );
    let third: Vec<String> = d.step(&vec![parse_attrs(&words(&["=.id=*9"]))]).unwrap().iter().map(show).collect();
    assert_eq!(
        third,
        vec![
            "print   updating IP address on wg-home to 10.0.0.1/24".to_string(),
            "send /ip/address/set =.id=*9 =address=10.0.0.1/24".to_string(),
            "query /routing/bgp/template/print ?name=owntier-home".to_string(),
        ]
    );
    let last: Vec<String> = d.step(&Vec::new()).unwrap().iter().map(show).collect();
    assert_eq!(
        last,
        vec![
            "print   creating BGP template owntier-home (AS 4200000000)".to_string(),
            "send /routing/bgp/template/add =name=owntier-home =as=4200000000".to_string(),
            "print   deployed (stopped — interface disabled)".to_string(),
        ]
    );
    assert!(d.is_finished());
}

#[test]
fn verbose_run_echoes_commands() {
    let r = record();
    let mut d = deploy(&r, [3u8; 32], &config(&[("host", "h"), ("wg_ip", "ip")]), &flags(false, true, false)).unwrap();
    let first: Vec<String> = d.step(&Vec::new()).unwrap().iter().map(show).collect();
    assert_eq!(
        first,
        vec![
            "connect".to_string(),
            "print   [query]  /interface/wireguard/print ?name=wg-home".to_string(),
            "query+echo /interface/wireguard/print ?name=wg-home".to_string(),
        ]
    );
    let second: Vec<String> = d.step(&Vec::new()).unwrap().iter().map(show).collect();
    assert_eq!(second[0], "print   creating WireGuard interface wg-home");
    assert!(second[1].starts_with("print   [sent]   /interface/wireguard/add name=\"wg-home\""));
    assert!(second[2].starts_with("send /interface/wireguard/add =name=wg-home"));
    d.step(&Vec::new()).unwrap();
    let last: Vec<String> = d.step(&Vec::new()).unwrap().iter().map(show).collect();
    assert_eq!(last.last().unwrap(), "print   deployed and active");
}

#[test]
fn entry_without_id_fails() {
    let r = record();
    let mut d = deploy(&r, [1u8; 32], &config(&[("host", "h"), ("wg_ip", "ip")]), &flags(false, false, false)).unwrap();
    d.step(&Vec::new()).unwrap();
    let rows = vec![parse_attrs(&words(&["=name=wg-home"]))];
    assert!(matches!(d.step(&rows), Err(DeployError::MissingId(Section::WireGuard))));
    assert!(d.is_finished());
}

#[test]
fn display_of_sentences() {
    let shown = display_sentence(&words(&["/ip/address/add", "=address=10.0.0.1/24", "?name=x", "=flag", "=a=b=c"]));
    assert_eq!(
        String::from_utf8(shown).unwrap(),
        "/ip/address/add address=\"10.0.0.1/24\" ?name=x =flag a=\"b=c\""
    );
    assert!(display_sentence(&Vec::new()).is_empty());
}
