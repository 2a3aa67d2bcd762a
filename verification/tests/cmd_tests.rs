use owntier::mikrotik_cmd::{attach_config, masked_entries, run, AttachRequest, MikrotikAction, MikrotikCmd};
use owntier::network_cmd::{confirms_deletion, is_yes};
use owntier::deploy::{deploy, DeployFlags};
use owntier::network::NetworkRecord;

fn attach(ssl: bool, port: Option<u16>, wg_name: Option<&str>) -> MikrotikCmd {
    MikrotikCmd::Attach {
        network: "home".to_string(),
        host: "192.168.88.1".to_string(),
        ssl,
        port,
        user: "admin".to_string(),
        password: None,
        wg_name: wg_name.map(|s| s.to_string()),
        wg_ip: "10.64.0.1/16".to_string(),
        wg_port: 51820,
    }
}

fn request(cmd: MikrotikCmd) -> AttachRequest {
    match run(cmd) {
        MikrotikAction::Attach(a) => a,
        _ => panic!("not an attach"),
    }
}

#[test]
fn attach_defaults() {
    let a = request(attach(false, None, None));
    assert_eq!(a.port, 8728);
    assert_eq!(a.wg_name, "wg-home");
    let a = request(attach(true, None, Some("wg0")));
    assert_eq!(a.port, 8729);
    assert_eq!(a.wg_name, "wg0");
    let a = request(attach(true, Some(9000), None));
    assert_eq!(a.port, 9000);
    assert!(a.ssl);
    assert_eq!(a.host, "192.168.88.1");
}

#[test]
fn show_and_detach_pass_through() {
    assert!(matches!(run(MikrotikCmd::Show { network: "n".to_string() }), MikrotikAction::Show { network } if network == "n"));
    assert!(matches!(run(MikrotikCmd::Detach { network: "n".to_string() }), MikrotikAction::Detach { network } if network == "n"));
}

#[test]
fn attach_config_holds_every_setting() {
    let a = request(attach(true, None, None));
    let cfg = attach_config(&a, &"s3cret".to_string());
    let got: Vec<(String, String)> = cfg
        .entries()
        .iter()
        .map(|(k, v)| (String::from_utf8(k.clone()).unwrap(), String::from_utf8(v.clone()).unwrap()))
        .collect();
    let want: Vec<(String, String)> = [
        ("host", "192.168.88.1"),
        ("password", "s3cret"),
        ("port", "8729"),
        ("ssl", "true"),
        ("user", "admin"),
        ("wg_ip", "10.64.0.1/16"),
        ("wg_name", "wg-home"),
        ("wg_port", "51820"),
    ]
    .iter()
    .map(|(k, v)| (k.to_string(), v.to_string()))
    .collect();
    assert_eq!(got, want);
}

#[test]
fn attach_then_deploy_reads_the_same_settings() {
    let a = request(attach(false, Some(8000), None));
    let cfg = attach_config(&a, &"pw".to_string());
    let record = NetworkRecord { name: "home".to_string(), as_number: 1, device_id: String::new(), wg_public_key: [0; 32] };
    let d = deploy(&record, [0; 32], &cfg, &DeployFlags { stopped: false, verbose: false, dry_run: true }).unwrap();
    let st = d.get_settings();
    assert_eq!(st.host, b"192.168.88.1".to_vec());
    assert_eq!(st.port, 8000);
    assert!(!st.ssl);
    assert_eq!(st.user, b"admin".to_vec());
    assert_eq!(st.password, b"pw".to_vec());
    assert_eq!(st.wg_name, b"wg-home".to_vec());
    assert_eq!(st.wg_ip, b"10.64.0.1/16".to_vec());
    assert_eq!(st.wg_port, 51820);
}

#[test]
fn shown_config_hides_password() {
    let a = request(attach(false, None, None));
    let cfg = attach_config(&a, &"s3cret".to_string());
    let shown = masked_entries(&cfg);
    assert_eq!(shown.len(), 8);
    assert_eq!(shown[1], (b"password".to_vec(), b"(set)".to_vec()));
    assert_eq!(shown[0], (b"host".to_vec(), b"192.168.88.1".to_vec()));
}

#[test]
fn deletion_confirmation() {
    assert!(confirms_deletion("y\n"));
    assert!(confirms_deletion("  YES \n"));
    assert!(confirms_deletion("Yes"));
    assert!(!confirms_deletion("\n"));
    assert!(!confirms_deletion("no"));
    assert!(!confirms_deletion("yess"));
    assert!(confirms_deletion("\u{3000}yes\u{85}\t"));
    assert!(!confirms_deletion("y\u{200B}"));
    assert!(is_yes("y"));
    assert!(!is_yes("Y"));
}
