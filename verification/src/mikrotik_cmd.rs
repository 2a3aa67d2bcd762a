//! The `mikrotik` commands: attaching, showing and detaching the MikroTik
//! plugin configuration of a network.
use vstd::prelude::*;
use vstd::string::StringExecFns;
use crate::attrs::{pairs_view, from_pairs, lemma_from_pairs, lemma_from_pairs_sorted, lookup, keys_sorted, Attrs};
use crate::bytes::{bytes_eq, decimal, push_decimal, str_bytes, string_bytes, text, utf8, lemma_parse_decimal, lemma_decimal_valid_utf8};
use crate::deploy::{config_error, settings_match, DeployFlags, DeploySettings};
use crate::network::NetworkRecord;
use crate::keys;
use crate::plugin::{all_utf8, lemma_from_pairs_utf8};

verus! {

/// A `mikrotik` command as given on the command line.
pub enum MikrotikCmd {
    /// Attach a MikroTik plugin configuration to a network.
    Attach {
        network: String,
        host: String,
        ssl: bool,
        port: Option<u16>,
        user: String,
        password: Option<String>,
        wg_name: Option<String>,
        wg_ip: String,
        wg_port: u16,
    },
    /// Show the decrypted configuration of a network.
    Show { network: String },
    /// Remove the configuration from a network.
    Detach { network: String },
}

/// An attach command with its defaults filled in.
pub struct AttachRequest {
    pub network: String,
    pub host: String,
    pub port: u16,
    pub ssl: bool,
    pub user: String,
    /// Asked for interactively when not given.
    pub password: Option<String>,
    pub wg_name: String,
    pub wg_ip: String,
    pub wg_port: u16,
}

/// What a `mikrotik` command comes to.
pub enum MikrotikAction {
    Attach(AttachRequest),
    Show { network: String },
    Detach { network: String },
}

/// Resolves a `mikrotik` command: the API port defaults to 8729 with TLS and
/// 8728 without, the interface name to `wg-<network>`.
pub fn run(cmd: MikrotikCmd) -> (r: MikrotikAction)
    ensures
        match cmd {
            MikrotikCmd::Attach { network, host, ssl, port, user, password, wg_name, wg_ip, wg_port } => {
                &&& r matches MikrotikAction::Attach(a)
                &&& a.network == network
                &&& a.host == host
                &&& a.ssl == ssl
                &&& a.port == (match port {
                    Some(p) => p,
                    None => if ssl {
                        8729u16
                    } else {
                        8728u16
                    },
                })
                &&& a.user == user
                &&& a.password == password
                &&& a.wg_name@ == (match wg_name {
                    Some(n) => n@,
                    None => "wg-"@ + network@,
                })
                &&& a.wg_ip == wg_ip
                &&& a.wg_port == wg_port
            },
            MikrotikCmd::Show { network } => r == MikrotikAction::Show { network },
            MikrotikCmd::Detach { network } => r == MikrotikAction::Detach { network },
        },
{
    match cmd {
        MikrotikCmd::Attach { network, host, ssl, port, user, password, wg_name, wg_ip, wg_port } => {
            let port = match port {
                Some(p) => p,
                None => if ssl {
                    8729
                } else {
                    8728
                },
            };
            let wg_name = match wg_name {
                Some(n) => n,
                None => {
                    let mut n = "wg-".to_owned();
                    n.append(network.as_str());
                    n
                },
            };
            MikrotikAction::Attach(
                AttachRequest { network, host, port, ssl, user, password, wg_name, wg_ip, wg_port },
            )
        },
        MikrotikCmd::Show { network } => MikrotikAction::Show { network },
        MikrotikCmd::Detach { network } => MikrotikAction::Detach { network },
    }
}

/// `true` or `false`, as `bool::to_string` writes it.
pub open spec fn bool_text(b: bool) -> Seq<u8> {
    if b {
        text("true")
    } else {
        text("false")
    }
}

/// The configuration an attach stores, setting by setting.
pub open spec fn attach_pairs(
    host: Seq<u8>,
    port: u16,
    ssl: bool,
    user: Seq<u8>,
    password: Seq<u8>,
    wg_name: Seq<u8>,
    wg_ip: Seq<u8>,
    wg_port: u16,
) -> Seq<(Seq<u8>, Seq<u8>)> {
    seq![
        (text(keys::HOST), host),
        (text(keys::PORT), decimal(port as nat)),
        (text(keys::SSL), bool_text(ssl)),
        (text(keys::USER), user),
        (text(keys::PASSWORD), password),
        (text(keys::WG_NAME), wg_name),
        (text(keys::WG_IP), wg_ip),
        (text(keys::WG_PORT), decimal(wg_port as nat)),
    ]
}

/// The plugin configuration that attaching `req` with `password` stores.
pub fn attach_config(req: &AttachRequest, password: &String) -> (r: Attrs)
    ensures
        r@ == from_pairs(
            attach_pairs(
                utf8(req.host@),
                req.port,
                req.ssl,
                utf8(req.user@),
                utf8(password@),
                utf8(req.wg_name@),
                utf8(req.wg_ip@),
                req.wg_port,
            ),
        ),
        keys_sorted(r@),
        all_utf8(r@),
{
    let ghost pairs = attach_pairs(
        utf8(req.host@),
        req.port,
        req.ssl,
        utf8(req.user@),
        utf8(password@),
        utf8(req.wg_name@),
        utf8(req.wg_ip@),
        req.wg_port,
    );
    proof {
        broadcast use vstd::utf8::encode_utf8_valid_utf8;

        lemma_decimal_valid_utf8(req.port as nat);
        lemma_decimal_valid_utf8(req.wg_port as nat);
        assert(all_utf8(pairs));
        lemma_from_pairs_utf8(pairs);
        lemma_from_pairs_sorted(pairs);
        lemma_from_pairs_sorted(pairs.take(1));
        lemma_from_pairs_sorted(pairs.take(2));
        lemma_from_pairs_sorted(pairs.take(3));
        lemma_from_pairs_sorted(pairs.take(4));
        lemma_from_pairs_sorted(pairs.take(5));
        lemma_from_pairs_sorted(pairs.take(6));
        lemma_from_pairs_sorted(pairs.take(7));
    }
    let mut r = Attrs::new();
    assert(r@ =~= from_pairs(pairs.take(0)));
    r.insert(str_bytes(keys::HOST), string_bytes(&req.host));
    assert(pairs.take(1).drop_last() =~= pairs.take(0));
    let mut port: Vec<u8> = Vec::new();
    push_decimal(&mut port, req.port as u32);
    r.insert(str_bytes(keys::PORT), port);
    assert(pairs.take(2).drop_last() =~= pairs.take(1));
    let ssl = if req.ssl {
        str_bytes("true")
    } else {
        str_bytes("false")
    };
    r.insert(str_bytes(keys::SSL), ssl);
    assert(pairs.take(3).drop_last() =~= pairs.take(2));
    r.insert(str_bytes(keys::USER), string_bytes(&req.user));
    assert(pairs.take(4).drop_last() =~= pairs.take(3));
    r.insert(str_bytes(keys::PASSWORD), string_bytes(password));
    assert(pairs.take(5).drop_last() =~= pairs.take(4));
    r.insert(str_bytes(keys::WG_NAME), string_bytes(&req.wg_name));
    assert(pairs.take(6).drop_last() =~= pairs.take(5));
    r.insert(str_bytes(keys::WG_IP), string_bytes(&req.wg_ip));
    assert(pairs.take(7).drop_last() =~= pairs.take(6));
    let mut wg_port: Vec<u8> = Vec::new();
    push_decimal(&mut wg_port, req.wg_port as u32);
    r.insert(str_bytes(keys::WG_PORT), wg_port);
    assert(pairs.take(8).drop_last() =~= pairs.take(7));
    assert(pairs.take(8) =~= pairs);
    r
}


/// What attach stores is what a deployment uses: a configuration written by
/// `attach_config` has no error, and the settings of every deployment of it
/// are the attached host, port, TLS choice, user, password, interface name,
/// address and WireGuard port.
pub proof fn lemma_attach_then_deploy(
    host: Seq<u8>,
    port: u16,
    ssl: bool,
    user: Seq<u8>,
    password: Seq<u8>,
    wg_name: Seq<u8>,
    wg_ip: Seq<u8>,
    wg_port: u16,
    st: DeploySettings,
    record: NetworkRecord,
    key: Seq<u8>,
    flags: DeployFlags,
)
    ensures
        config_error(from_pairs(attach_pairs(host, port, ssl, user, password, wg_name, wg_ip, wg_port)))
            is None,
        settings_match(
            st,
            record,
            key,
            from_pairs(attach_pairs(host, port, ssl, user, password, wg_name, wg_ip, wg_port)),
            flags,
        ) ==> st.host@ == host && st.port == port && st.ssl == ssl && st.user@ == user
            && st.password@ == password && st.wg_name@ == wg_name && st.wg_ip@ == wg_ip
            && st.wg_port == wg_port,
{
    let pairs = attach_pairs(host, port, ssl, user, password, wg_name, wg_ip, wg_port);
    let c = from_pairs(pairs);
    keys::lemma_setting_names_distinct();
    assert forall|i: int, j: int| 0 <= i < j < pairs.len() implies #[trigger] pairs[i].0
        != #[trigger] pairs[j].0 by {
        assert(pairs[i].0 == keys::setting_names()[i]);
        assert(pairs[j].0 == keys::setting_names()[j]);
    }
    lemma_from_pairs(pairs);
    assert(lookup(c, pairs[0].0) == Some(host));
    assert(lookup(c, pairs[1].0) == Some(decimal(port as nat)));
    assert(lookup(c, pairs[2].0) == Some(bool_text(ssl)));
    assert(lookup(c, pairs[3].0) == Some(user));
    assert(lookup(c, pairs[4].0) == Some(password));
    assert(lookup(c, pairs[5].0) == Some(wg_name));
    assert(lookup(c, pairs[6].0) == Some(wg_ip));
    assert(lookup(c, pairs[7].0) == Some(decimal(wg_port as nat)));
    lemma_parse_decimal(port);
    lemma_parse_decimal(wg_port);
    reveal_strlit("true");
    reveal_strlit("false");
    vstd::string::is_ascii_spec_bytes("true");
    vstd::string::is_ascii_spec_bytes("false");
    assert(text("true") != text("false")) by {
        assert(text("true").len() == 4);
        assert(text("false").len() == 5);
    }
}


/// The entries of a configuration as shown, in key order, the password
/// replaced by `(set)`.
pub open spec fn masked(s: Seq<(Seq<u8>, Seq<u8>)>) -> Seq<(Seq<u8>, Seq<u8>)> {
    s.map_values(
        |e: (Seq<u8>, Seq<u8>)|
            (e.0, if e.0 == text(keys::PASSWORD) {
                text("(set)")
            } else {
                e.1
            }),
    )
}

/// The entries of a configuration as shown.
pub fn masked_entries(values: &Attrs) -> (r: Vec<(Vec<u8>, Vec<u8>)>)
    ensures
        pairs_view(r@) == masked(values@),
{
    let entries = values.entries();
    let password = keys::PASSWORD.as_bytes();
    let mut r: Vec<(Vec<u8>, Vec<u8>)> = Vec::new();
    let mut i: usize = 0;
    while i < entries.len()
        invariant
            i <= entries@.len(),
            pairs_view(entries@) == values@,
            password@ == text(keys::PASSWORD),
            pairs_view(r@) == masked(values@).take(i as int),
        decreases entries.len() - i,
    {
        let k = vstd::slice::slice_to_vec(entries[i].0.as_slice());
        let is_password = bytes_eq(k.as_slice(), password);
        let v = if is_password {
            str_bytes("(set)")
        } else {
            vstd::slice::slice_to_vec(entries[i].1.as_slice())
        };
        let ghost before = pairs_view(r@);
        let ghost e = values@[i as int];
        assert(e == (entries@[i as int].0@, entries@[i as int].1@));
        assert(k@ == e.0);
        assert(v@ == (if e.0 == text(keys::PASSWORD) {
            text("(set)")
        } else {
            e.1
        }));
        r.push((k, v));
        assert(pairs_view(r@) =~= before.push((e.0, v@)));
        assert(masked(values@).take(i + 1) =~= masked(values@).take(i as int).push(masked(values@)[i as int]));
        i = i + 1;
    }
    assert(masked(values@).take(i as int) =~= masked(values@));
    r
}


/// Showing a configuration hides only the password: every entry keeps its
/// key and position, the entry whose key is exactly `password` shows
/// `(set)`, and every other entry shows its stored value.
pub proof fn lemma_only_password_hidden(s: Seq<(Seq<u8>, Seq<u8>)>, i: int)
    requires
        0 <= i < s.len(),
    ensures
        masked(s).len() == s.len(),
        masked(s)[i].0 == s[i].0,
        s[i].0 == text("password") ==> masked(s)[i].1 == text("(set)"),
        s[i].0 != text("password") ==> masked(s)[i].1 == s[i].1,
{
    reveal_strlit("password");
    assert(keys::PASSWORD@ == "password"@);
}

} // verus!
