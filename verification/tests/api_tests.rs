use owntier::api::{Progress, RosError, RosSession};
use owntier::wire::encode_sentence;

fn words(ws: &[&str]) -> Vec<Vec<u8>> {
    ws.iter().map(|w| w.as_bytes().to_vec()).collect()
}

#[test]
fn login_sends_login_sentence() {
    let mut s = RosSession::new();
    assert!(!s.awaiting());
    let bytes = s.login(b"admin", b"secret");
    assert_eq!(bytes, encode_sentence(&words(&["/login", "=name=admin", "=password=secret"])));
    assert!(s.awaiting());
}

#[test]
fn login_done_succeeds() {
    let mut s = RosSession::new();
    s.login(b"admin", b"");
    match s.receive(&words(&["!done"])) {
        Progress::Done(rows) => assert!(rows.is_empty()),
        _ => panic!("login not accepted"),
    }
    assert!(!s.awaiting());
}

#[test]
fn login_trap_gives_message() {
    let mut s = RosSession::new();
    s.login(b"admin", b"bad");
    match s.receive(&words(&["!trap", "=category=1", "=message=invalid user name or password"])) {
        Progress::Failed(RosError::LoginFailed(m)) => assert_eq!(m, b"invalid user name or password".to_vec()),
        _ => panic!("login not refused"),
    }
}

#[test]
fn login_trap_without_message() {
    let mut s = RosSession::new();
    s.login(b"admin", b"bad");
    match s.receive(&words(&["!trap"])) {
        Progress::Failed(RosError::LoginFailed(m)) => assert_eq!(m, b"unknown error".to_vec()),
        _ => panic!("login not refused"),
    }
}

#[test]
fn login_unexpected_reply() {
    let mut s = RosSession::new();
    s.login(b"admin", b"");
    match s.receive(&words(&["!fatal", "=message=x"])) {
        Progress::Failed(RosError::UnexpectedLoginReply(Some(w))) => assert_eq!(w, b"!fatal".to_vec()),
        _ => panic!("unexpected reply accepted"),
    }
    let mut s = RosSession::new();
    s.login(b"admin", b"");
    match s.receive(&Vec::new()) {
        Progress::Failed(RosError::UnexpectedLoginReply(None)) => {}
        _ => panic!("empty reply accepted"),
    }
}

#[test]
fn run_collects_rows_until_done() {
    let mut s = RosSession::new();
    let bytes = s.run(&words(&["/ip/address/print", "?interface=wg-home"]));
    assert_eq!(bytes, encode_sentence(&words(&["/ip/address/print", "?interface=wg-home"])));
    assert!(matches!(s.receive(&words(&["!re", "=.id=*1", "=address=10.0.0.1/24"])), Progress::Awaiting));
    assert!(matches!(s.receive(&words(&["!empty"])), Progress::Awaiting));
    assert!(matches!(s.receive(&words(&["!re", "=.id=*2"])), Progress::Awaiting));
    match s.receive(&words(&["!done"])) {
        Progress::Done(rows) => {
            assert_eq!(rows.len(), 2);
            assert_eq!(rows[0].get(b".id"), Some(&b"*1".to_vec()));
            assert_eq!(rows[0].get(b"address"), Some(&b"10.0.0.1/24".to_vec()));
            assert_eq!(rows[1].get(b".id"), Some(&b"*2".to_vec()));
        }
        _ => panic!("command not finished"),
    }
    assert!(!s.awaiting());
}

#[test]
fn run_trap_fails() {
    let mut s = RosSession::new();
    s.exec(&words(&["/ip/address/add", "=address=bad"]));
    match s.receive(&words(&["!trap", "=message=invalid value for argument address"])) {
        Progress::Failed(RosError::Trap(m)) => assert_eq!(m, b"invalid value for argument address".to_vec()),
        _ => panic!("trap not reported"),
    }
    assert!(!s.awaiting());
}
