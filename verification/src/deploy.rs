//! Deploying a network to a MikroTik device: the settings taken from the
//! plugin configuration, and the RouterOS commands that create or update the
//! WireGuard interface, its IP address and the BGP template.
//!
//! A `Deployment` decides; its caller connects, prints, queries and sends as
//! the actions it gets say, and hands back the rows of each query.
use vstd::prelude::*;
use crate::api::rows_view;
use crate::attrs::{lookup, word_attr, Attrs, parse_word_attr};
use crate::bytes::{
    all_digits, digits_value, has_prefix, lemma_decimal_digits,
    base64_encode, base64_standard,
    bytes_eq, concat, decimal, parse_u16, push_decimal, push_str, spec_parse_u16, str_bytes,
    string_bytes, text, utf8,
};
use crate::keys;
use crate::network::NetworkRecord;
use crate::wire::words_view;

verus! {

/// How a deployment runs.
#[derive(Clone, Copy, Debug, PartialEq, Eq, Structural)]
pub struct DeployFlags {
    /// Leave the WireGuard interface disabled.
    pub stopped: bool,
    /// Print every command.
    pub verbose: bool,
    /// Print every command, connect to nothing, send nothing.
    pub dry_run: bool,
}

/// The three things a deployment sets up, in the order it does.
#[derive(Clone, Copy, Debug, PartialEq, Eq, Structural)]
pub enum Section {
    WireGuard,
    Address,
    BgpTemplate,
}

/// Why a deployment cannot go on.
#[derive(Clone, Copy, Debug, PartialEq, Eq, Structural)]
pub enum DeployError {
    /// The configuration has no `host`.
    MissingHost,
    /// The configuration's `port` is not a port number.
    InvalidPort,
    /// The configuration has no `wg_ip`.
    MissingWgIp,
    /// The configuration's `wg_port` is not a port number.
    InvalidWgPort,
    /// The device listed an existing entry without an `.id`.
    MissingId(Section),
}

/// Everything a deployment takes from the network record and the plugin configuration.
pub struct DeploySettings {
    pub host: Vec<u8>,
    pub port: u16,
    pub ssl: bool,
    pub user: Vec<u8>,
    pub password: Vec<u8>,
    /// The WireGuard interface name.
    pub wg_name: Vec<u8>,
    /// The WireGuard address with prefix length.
    pub wg_ip: Vec<u8>,
    pub wg_port: u16,
    /// The WireGuard private key, in base64.
    pub private_key: Vec<u8>,
    /// `yes` when the interface is to stay disabled, else `no`.
    pub disabled: Vec<u8>,
    /// The name of the BGP template.
    pub bgp_template: Vec<u8>,
    pub as_number: u32,
    pub flags: DeployFlags,
}

/// A port setting: absent gives the default, present must parse.
pub open spec fn port_setting(v: Option<Seq<u8>>, default: u16) -> Option<u16> {
    match v {
        None => Some(default),
        Some(s) => spec_parse_u16(s),
    }
}

/// The first error in the configuration, checked in the order `host`,
/// `port`, `wg_ip`, `wg_port`.
pub open spec fn config_error(cfg: Seq<(Seq<u8>, Seq<u8>)>) -> Option<DeployError> {
    if lookup(cfg, text(keys::HOST)) is None {
        Some(DeployError::MissingHost)
    } else if port_setting(lookup(cfg, text(keys::PORT)), 8728) is None {
        Some(DeployError::InvalidPort)
    } else if lookup(cfg, text(keys::WG_IP)) is None {
        Some(DeployError::MissingWgIp)
    } else if port_setting(lookup(cfg, text(keys::WG_PORT)), 51820) is None {
        Some(DeployError::InvalidWgPort)
    } else {
        None
    }
}

/// The settings taken from a configuration without errors: the values given,
/// else user `admin`, an empty password, interface `wg-<network>`, API port
/// 8728, WireGuard port 51820 and no TLS; TLS only when `ssl` is `true`.
pub open spec fn settings_match(
    st: DeploySettings,
    record: NetworkRecord,
    key: Seq<u8>,
    cfg: Seq<(Seq<u8>, Seq<u8>)>,
    flags: DeployFlags,
) -> bool {
    let name = utf8(record.name@);
    &&& lookup(cfg, text(keys::HOST)) == Some(st.host@)
    &&& port_setting(lookup(cfg, text(keys::PORT)), 8728) == Some(st.port)
    &&& st.user@ == (match lookup(cfg, text(keys::USER)) {
        Some(u) => u,
        None => text("admin"),
    })
    &&& st.password@ == (match lookup(cfg, text(keys::PASSWORD)) {
        Some(p) => p,
        None => Seq::empty(),
    })
    &&& st.wg_name@ == (match lookup(cfg, text(keys::WG_NAME)) {
        Some(n) => n,
        None => text("wg-") + name,
    })
    &&& lookup(cfg, text(keys::WG_IP)) == Some(st.wg_ip@)
    &&& port_setting(lookup(cfg, text(keys::WG_PORT)), 51820) == Some(st.wg_port)
    &&& st.private_key@ == base64_standard(key)
    &&& st.disabled@ == (if flags.stopped {
        text("yes")
    } else {
        text("no")
    })
    &&& st.bgp_template@ == text("owntier-") + name
    &&& st.ssl == (lookup(cfg, text(keys::SSL)) == Some(text("true")))
    &&& st.as_number == record.as_number
    &&& st.flags == flags
}

/// A value of the configuration, or a default.
fn value_or(cfg: &Attrs, key: &str, default: &str) -> (r: Vec<u8>)
    ensures
        r@ == (match lookup(cfg@, text(key)) {
            Some(v) => v,
            None => text(default),
        }),
{
    match cfg.get(key.as_bytes()) {
        Some(v) => v.clone(),
        None => str_bytes(default),
    }
}

/// A port of the configuration: its value parsed, or the default when absent.
fn port_value(cfg: &Attrs, key: &str, default: u16) -> (r: Option<u16>)
    ensures
        r == port_setting(lookup(cfg@, text(key)), default),
{
    match cfg.get(key.as_bytes()) {
        Some(v) => parse_u16(v.as_slice()),
        None => Some(default),
    }
}

/// The settings of a deployment of `record` with the WireGuard private key
/// `wg_private_key` and the plugin configuration `cfg`.
pub fn deploy_settings(
    record: &NetworkRecord,
    wg_private_key: [u8; 32],
    cfg: &Attrs,
    flags: &DeployFlags,
) -> (r: Result<DeploySettings, DeployError>)
    ensures
        match r {
            Ok(st) => config_error(cfg@) is None && settings_match(
                st,
                *record,
                wg_private_key@,
                cfg@,
                *flags,
            ),
            Err(e) => config_error(cfg@) == Some(e),
        },
{
    let host = match cfg.get(keys::HOST.as_bytes()) {
        Some(h) => h.clone(),
        None => {
            return Err(DeployError::MissingHost);
        },
    };
    let port = match port_value(cfg, keys::PORT, 8728) {
        Some(p) => p,
        None => {
            return Err(DeployError::InvalidPort);
        },
    };
    let user = value_or(cfg, keys::USER, "admin");
    let password = value_or(cfg, keys::PASSWORD, "");
    let name = string_bytes(&record.name);
    let wg_name = match cfg.get(keys::WG_NAME.as_bytes()) {
        Some(n) => n.clone(),
        None => concat(str_bytes("wg-").as_slice(), name.as_slice()),
    };
    let wg_ip = match cfg.get(keys::WG_IP.as_bytes()) {
        Some(ip) => ip.clone(),
        None => {
            return Err(DeployError::MissingWgIp);
        },
    };
    let wg_port = match port_value(cfg, keys::WG_PORT, 51820) {
        Some(p) => p,
        None => {
            return Err(DeployError::InvalidWgPort);
        },
    };
    let private_key = base64_encode(&wg_private_key);
    let disabled = if flags.stopped {
        str_bytes("yes")
    } else {
        str_bytes("no")
    };
    let bgp_template = concat(str_bytes("owntier-").as_slice(), name.as_slice());
    let ssl = match cfg.get(keys::SSL.as_bytes()) {
        Some(v) => bytes_eq(v.as_slice(), "true".as_bytes()),
        None => false,
    };
    proof {
        reveal_strlit("");
        assert(""@ =~= Seq::<char>::empty());
        assert(vstd::utf8::encode_utf8(""@) =~= Seq::<u8>::empty());
    }
    Ok(
        DeploySettings {
            host,
            port,
            ssl,
            user,
            password,
            wg_name,
            wg_ip,
            wg_port,
            private_key,
            disabled,
            bgp_template,
            as_number: record.as_number,
            flags: *flags,
        },
    )
}


/// A word: a literal prefix, then a value.
pub open spec fn kv(prefix: &str, value: Seq<u8>) -> Seq<u8> {
    text(prefix) + value
}

/// The command that lists what already exists of a section.
pub open spec fn query_words(st: DeploySettings, sec: Section) -> Seq<Seq<u8>> {
    match sec {
        Section::WireGuard => seq![
            text("/interface/wireguard/print"),
            kv("?name=", st.wg_name@),
        ],
        Section::Address => seq![text("/ip/address/print"), kv("?interface=", st.wg_name@)],
        Section::BgpTemplate => seq![
            text("/routing/bgp/template/print"),
            kv("?name=", st.bgp_template@),
        ],
    }
}

/// The command that updates the existing entry `id` of a section.
pub open spec fn update_words(st: DeploySettings, sec: Section, id: Seq<u8>) -> Seq<Seq<u8>> {
    match sec {
        Section::WireGuard => seq![
            text("/interface/wireguard/set"),
            kv("=.id=", id),
            kv("=listen-port=", decimal(st.wg_port as nat)),
            kv("=private-key=", st.private_key@),
            kv("=disabled=", st.disabled@),
        ],
        Section::Address => seq![
            text("/ip/address/set"),
            kv("=.id=", id),
            kv("=address=", st.wg_ip@),
        ],
        Section::BgpTemplate => seq![
            text("/routing/bgp/template/set"),
            kv("=.id=", id),
            kv("=as=", decimal(st.as_number as nat)),
        ],
    }
}

/// The command that creates a section's entry.
pub open spec fn create_words(st: DeploySettings, sec: Section) -> Seq<Seq<u8>> {
    match sec {
        Section::WireGuard => seq![
            text("/interface/wireguard/add"),
            kv("=name=", st.wg_name@),
            kv("=listen-port=", decimal(st.wg_port as nat)),
            kv("=private-key=", st.private_key@),
            kv("=disabled=", st.disabled@),
        ],
        Section::Address => seq![
            text("/ip/address/add"),
            kv("=address=", st.wg_ip@),
            kv("=interface=", st.wg_name@),
        ],
        Section::BgpTemplate => seq![
            text("/routing/bgp/template/add"),
            kv("=name=", st.bgp_template@),
            kv("=as=", decimal(st.as_number as nat)),
        ],
    }
}

/// The line printed before updating a section's entry.
pub open spec fn update_message(st: DeploySettings, sec: Section) -> Seq<u8> {
    match sec {
        Section::WireGuard => text("  updating WireGuard interface ") + st.wg_name@,
        Section::Address => text("  updating IP address on ") + st.wg_name@ + text(" to ")
            + st.wg_ip@,
        Section::BgpTemplate => text("  updating BGP template ") + st.bgp_template@ + text(
            " (AS ",
        ) + decimal(st.as_number as nat) + text(")"),
    }
}

/// The line printed before creating a section's entry.
pub open spec fn create_message(st: DeploySettings, sec: Section) -> Seq<u8> {
    match sec {
        Section::WireGuard => text("  creating WireGuard interface ") + st.wg_name@,
        Section::Address => text("  assigning IP ") + st.wg_ip@ + text(" to ") + st.wg_name@,
        Section::BgpTemplate => text("  creating BGP template ") + st.bgp_template@ + text(
            " (AS ",
        ) + decimal(st.as_number as nat) + text(")"),
    }
}

/// A word as printed: `=key=value` shows as `key="value"`, others as they are.
pub open spec fn display_word(w: Seq<u8>) -> Seq<u8> {
    match word_attr(w) {
        Some(kv) => kv.0 + text("=\"") + kv.1 + text("\""),
        None => w,
    }
}

/// A sentence as printed: its words shown one by one, separated by spaces.
pub open spec fn display_words(ws: Seq<Seq<u8>>) -> Seq<u8>
    decreases ws.len(),
{
    if ws.len() == 0 {
        Seq::empty()
    } else if ws.len() == 1 {
        display_word(ws[0])
    } else {
        display_words(ws.drop_last()) + text(" ") + display_word(ws.last())
    }
}

/// Appends a literal prefix and a value.
fn kv_word(prefix: &str, value: &[u8]) -> (r: Vec<u8>)
    ensures
        r@ == kv(prefix, value@),
{
    concat(str_bytes(prefix).as_slice(), value)
}

/// A literal prefix, then a number in decimal.
fn kv_number(prefix: &str, n: u32) -> (r: Vec<u8>)
    ensures
        r@ == kv(prefix, decimal(n as nat)),
{
    let mut r = str_bytes(prefix);
    push_decimal(&mut r, n);
    r
}

/// Appends a word as printed.
fn push_display_word(out: &mut Vec<u8>, w: &[u8])
    ensures
        final(out)@ == old(out)@ + display_word(w@),
{
    match parse_word_attr(w) {
        Some(p) => {
            out.extend_from_slice(p.0.as_slice());
            push_str(out, "=\"");
            out.extend_from_slice(p.1.as_slice());
            push_str(out, "\"");
        },
        None => {
            out.extend_from_slice(w);
        },
    }
    assert(final(out)@ =~= old(out)@ + display_word(w@));
}

/// A sentence shown for printing.
pub fn display_sentence(words: &Vec<Vec<u8>>) -> (r: Vec<u8>)
    ensures
        r@ == display_words(words_view(words@)),
{
    let mut out: Vec<u8> = Vec::new();
    let mut i: usize = 0;
    while i < words.len()
        invariant
            i <= words@.len(),
            out@ == display_words(words_view(words@).take(i as int)),
        decreases words.len() - i,
    {
        let ghost ws = words_view(words@);
        let ghost before = out@;
        if i > 0 {
            push_str(&mut out, " ");
        }
        push_display_word(&mut out, words[i].as_slice());
        proof {
            assert(ws.take(i + 1).drop_last() =~= ws.take(i as int));
            assert(ws.take(i + 1).last() == words@[i as int]@);
            if i == 0 {
                assert(ws.take(i + 1)[0] == words@[0]@);
                assert(before =~= Seq::<u8>::empty());
            }
            assert(out@ =~= display_words(ws.take(i + 1)));
        }
        i = i + 1;
    }
    assert(words_view(words@).take(i as int) =~= words_view(words@));
    out
}

/// The command that lists what exists of a section.
fn query_sentence(st: &DeploySettings, sec: Section) -> (r: Vec<Vec<u8>>)
    ensures
        words_view(r@) == query_words(*st, sec),
{
    let mut r: Vec<Vec<u8>> = Vec::new();
    match sec {
        Section::WireGuard => {
            r.push(str_bytes("/interface/wireguard/print"));
            r.push(kv_word("?name=", st.wg_name.as_slice()));
        },
        Section::Address => {
            r.push(str_bytes("/ip/address/print"));
            r.push(kv_word("?interface=", st.wg_name.as_slice()));
        },
        Section::BgpTemplate => {
            r.push(str_bytes("/routing/bgp/template/print"));
            r.push(kv_word("?name=", st.bgp_template.as_slice()));
        },
    }
    assert(words_view(r@) =~= query_words(*st, sec));
    r
}

/// The command that updates entry `id` of a section.
fn update_sentence(st: &DeploySettings, sec: Section, id: &[u8]) -> (r: Vec<Vec<u8>>)
    ensures
        words_view(r@) == update_words(*st, sec, id@),
{
    let mut r: Vec<Vec<u8>> = Vec::new();
    match sec {
        Section::WireGuard => {
            r.push(str_bytes("/interface/wireguard/set"));
            r.push(kv_word("=.id=", id));
            r.push(kv_number("=listen-port=", st.wg_port as u32));
            r.push(kv_word("=private-key=", st.private_key.as_slice()));
            r.push(kv_word("=disabled=", st.disabled.as_slice()));
        },
        Section::Address => {
            r.push(str_bytes("/ip/address/set"));
            r.push(kv_word("=.id=", id));
            r.push(kv_word("=address=", st.wg_ip.as_slice()));
        },
        Section::BgpTemplate => {
            r.push(str_bytes("/routing/bgp/template/set"));
            r.push(kv_word("=.id=", id));
            r.push(kv_number("=as=", st.as_number));
        },
    }
    assert(words_view(r@) =~= update_words(*st, sec, id@));
    r
}

/// The command that creates a section's entry.
fn create_sentence(st: &DeploySettings, sec: Section) -> (r: Vec<Vec<u8>>)
    ensures
        words_view(r@) == create_words(*st, sec),
{
    let mut r: Vec<Vec<u8>> = Vec::new();
    match sec {
        Section::WireGuard => {
            r.push(str_bytes("/interface/wireguard/add"));
            r.push(kv_word("=name=", st.wg_name.as_slice()));
            r.push(kv_number("=listen-port=", st.wg_port as u32));
            r.push(kv_word("=private-key=", st.private_key.as_slice()));
            r.push(kv_word("=disabled=", st.disabled.as_slice()));
        },
        Section::Address => {
            r.push(str_bytes("/ip/address/add"));
            r.push(kv_word("=address=", st.wg_ip.as_slice()));
            r.push(kv_word("=interface=", st.wg_name.as_slice()));
        },
        Section::BgpTemplate => {
            r.push(str_bytes("/routing/bgp/template/add"));
            r.push(kv_word("=name=", st.bgp_template.as_slice()));
            r.push(kv_number("=as=", st.as_number));
        },
    }
    assert(words_view(r@) =~= create_words(*st, sec));
    r
}

/// The line printed before updating a section's entry.
fn update_line(st: &DeploySettings, sec: Section) -> (r: Vec<u8>)
    ensures
        r@ == update_message(*st, sec),
{
    let mut r: Vec<u8> = Vec::new();
    match sec {
        Section::WireGuard => {
            push_str(&mut r, "  updating WireGuard interface ");
            r.extend_from_slice(st.wg_name.as_slice());
        },
        Section::Address => {
            push_str(&mut r, "  updating IP address on ");
            r.extend_from_slice(st.wg_name.as_slice());
            push_str(&mut r, " to ");
            r.extend_from_slice(st.wg_ip.as_slice());
        },
        Section::BgpTemplate => {
            push_str(&mut r, "  updating BGP template ");
            r.extend_from_slice(st.bgp_template.as_slice());
            push_str(&mut r, " (AS ");
            push_decimal(&mut r, st.as_number);
            push_str(&mut r, ")");
        },
    }
    assert(r@ =~= update_message(*st, sec));
    r
}

/// The line printed before creating a section's entry.
fn create_line(st: &DeploySettings, sec: Section) -> (r: Vec<u8>)
    ensures
        r@ == create_message(*st, sec),
{
    let mut r: Vec<u8> = Vec::new();
    match sec {
        Section::WireGuard => {
            push_str(&mut r, "  creating WireGuard interface ");
            r.extend_from_slice(st.wg_name.as_slice());
        },
        Section::Address => {
            push_str(&mut r, "  assigning IP ");
            r.extend_from_slice(st.wg_ip.as_slice());
            push_str(&mut r, " to ");
            r.extend_from_slice(st.wg_name.as_slice());
        },
        Section::BgpTemplate => {
            push_str(&mut r, "  creating BGP template ");
            r.extend_from_slice(st.bgp_template.as_slice());
            push_str(&mut r, " (AS ");
            push_decimal(&mut r, st.as_number);
            push_str(&mut r, ")");
        },
    }
    assert(r@ =~= create_message(*st, sec));
    r
}


/// What the caller of a deployment does next.
pub enum DeployAction {
    /// Connect to the device (`host`, `port`, TLS when `ssl`) and log in as
    /// `user` with `password`, all from the settings.
    Connect,
    /// Print this line.
    Print(Vec<u8>),
    /// Run this command and hand its rows to the next step; print the rows
    /// too when the flag is set.
    Query(Vec<Vec<u8>>, bool),
    /// Run this command; its rows are not needed.
    Send(Vec<Vec<u8>>),
}

/// A `DeployAction` as a spec value.
pub enum SpecAction {
    Connect,
    Print(Seq<u8>),
    Query(Seq<Seq<u8>>, bool),
    Send(Seq<Seq<u8>>),
}

impl DeployAction {
    pub open spec fn spec_view(&self) -> SpecAction {
        match self {
            DeployAction::Connect => SpecAction::Connect,
            DeployAction::Print(l) => SpecAction::Print(l@),
            DeployAction::Query(ws, echo) => SpecAction::Query(words_view(ws@), *echo),
            DeployAction::Send(ws) => SpecAction::Send(words_view(ws@)),
        }
    }
}

/// A list of actions as spec values.
pub open spec fn actions_view(acts: Seq<DeployAction>) -> Seq<SpecAction> {
    acts.map_values(|a: DeployAction| a.spec_view())
}

/// Where a deployment stands.
#[derive(Clone, Copy, Debug, PartialEq, Eq, Structural)]
pub enum Stage {
    /// Nothing is done yet.
    Begin,
    /// The command that lists a section has been issued; its rows are due.
    AfterQuery(Section),
    /// All is done.
    Finished,
}

/// Whether commands are printed.
pub open spec fn echoes(flags: DeployFlags) -> bool {
    flags.verbose || flags.dry_run
}

/// The section after `sec`, if any.
pub open spec fn next_section(sec: Section) -> Option<Section> {
    match sec {
        Section::WireGuard => Some(Section::Address),
        Section::Address => Some(Section::BgpTemplate),
        Section::BgpTemplate => None,
    }
}

/// Listing what exists of a section: printed when commands are printed, and
/// run unless this is a dry run.
pub open spec fn query_actions(st: DeploySettings, sec: Section) -> Seq<SpecAction> {
    (if echoes(st.flags) {
        seq![SpecAction::Print(text("  [query]  ") + display_words(query_words(st, sec)))]
    } else {
        Seq::empty()
    }) + (if st.flags.dry_run {
        Seq::empty()
    } else {
        seq![SpecAction::Query(query_words(st, sec), echoes(st.flags))]
    })
}

/// Sending a command: printed when commands are printed, sent unless this is
/// a dry run.
pub open spec fn send_actions(st: DeploySettings, ws: Seq<Seq<u8>>) -> Seq<SpecAction> {
    (if echoes(st.flags) {
        seq![
            SpecAction::Print(
                text("  ") + (if st.flags.dry_run {
                    text("[dry-run]")
                } else {
                    text("[sent]  ")
                }) + text(" ") + display_words(ws),
            ),
        ]
    } else {
        Seq::empty()
    }) + (if st.flags.dry_run {
        Seq::empty()
    } else {
        seq![SpecAction::Send(ws)]
    })
}

/// Setting up a section once its rows are known (a dry run knows of none):
/// the first row's entry is updated, and must have an `.id`; with no row the
/// entry is created.
pub open spec fn apply_actions(
    st: DeploySettings,
    sec: Section,
    rows: Seq<Seq<(Seq<u8>, Seq<u8>)>>,
) -> Result<Seq<SpecAction>, DeployError> {
    let rows = if st.flags.dry_run {
        Seq::empty()
    } else {
        rows
    };
    if rows.len() > 0 {
        match lookup(rows[0], text(".id")) {
            None => Err(DeployError::MissingId(sec)),
            Some(id) => Ok(
                seq![SpecAction::Print(update_message(st, sec))] + send_actions(
                    st,
                    update_words(st, sec, id),
                ),
            ),
        }
    } else {
        Ok(seq![SpecAction::Print(create_message(st, sec))] + send_actions(st, create_words(st, sec)))
    }
}

/// The last line of a deployment.
pub open spec fn summary_line(flags: DeployFlags) -> Seq<u8> {
    if flags.dry_run {
        text("  (dry-run complete — nothing sent)")
    } else if flags.stopped {
        text("  deployed (stopped — interface disabled)")
    } else {
        text("  deployed and active")
    }
}

/// One step of a deployment in `stage`, given the rows of the last query:
/// the actions to take and the stage after them.
///
/// The first step connects (unless this is a dry run) and lists the WireGuard
/// interface; each later step sets up the section just listed and lists the
/// next, and the last one prints the summary.
pub open spec fn spec_step(
    st: DeploySettings,
    stage: Stage,
    rows: Seq<Seq<(Seq<u8>, Seq<u8>)>>,
) -> Result<(Seq<SpecAction>, Stage), DeployError> {
    match stage {
        Stage::Begin => Ok(
            (
                (if st.flags.dry_run {
                    Seq::empty()
                } else {
                    seq![SpecAction::Connect]
                }) + query_actions(st, Section::WireGuard),
                Stage::AfterQuery(Section::WireGuard),
            ),
        ),
        Stage::AfterQuery(sec) => match apply_actions(st, sec, rows) {
            Err(e) => Err(e),
            Ok(acts) => match next_section(sec) {
                Some(n) => Ok((acts + query_actions(st, n), Stage::AfterQuery(n))),
                None => Ok((acts + seq![SpecAction::Print(summary_line(st.flags))], Stage::Finished)),
            },
        },
        Stage::Finished => Ok((Seq::empty(), Stage::Finished)),
    }
}

/// A deployment under way.
pub struct Deployment {
    settings: DeploySettings,
    stage: Stage,
}

/// Appends the actions that list a section.
fn push_query(acts: &mut Vec<DeployAction>, st: &DeploySettings, sec: Section)
    ensures
        actions_view(final(acts)@) == actions_view(old(acts)@) + query_actions(*st, sec),
{
    let ghost before = actions_view(acts@);
    let echo = st.flags.verbose || st.flags.dry_run;
    let words = query_sentence(st, sec);
    let ghost first: Seq<SpecAction> = Seq::empty();
    if echo {
        let mut line = str_bytes("  [query]  ");
        let shown = display_sentence(&words);
        line.extend_from_slice(shown.as_slice());
        let ghost lv = line@;
        assert(lv =~= text("  [query]  ") + display_words(query_words(*st, sec)));
        acts.push(DeployAction::Print(line));
        proof {
            first = seq![SpecAction::Print(lv)];
            assert(actions_view(acts@) =~= before + first);
        }
    } else {
        assert(actions_view(acts@) =~= before + first);
    }
    let ghost mid = actions_view(acts@);
    let ghost wv = words_view(words@);
    let ghost second: Seq<SpecAction> = Seq::empty();
    if !st.flags.dry_run {
        acts.push(DeployAction::Query(words, echo));
        proof {
            second = seq![SpecAction::Query(wv, echo)];
        }
        assert(actions_view(acts@) =~= mid + second);
    } else {
        assert(actions_view(acts@) =~= mid + second);
    }
    assert(first + second =~= query_actions(*st, sec));
    assert(actions_view(acts@) =~= before + query_actions(*st, sec));
}

/// Appends the actions that send a command.
fn push_send(acts: &mut Vec<DeployAction>, st: &DeploySettings, words: Vec<Vec<u8>>)
    ensures
        actions_view(final(acts)@) == actions_view(old(acts)@) + send_actions(
            *st,
            words_view(words@),
        ),
{
    let ghost before = actions_view(acts@);
    let ghost ws = words_view(words@);
    let ghost first: Seq<SpecAction> = Seq::empty();
    if st.flags.verbose || st.flags.dry_run {
        let mut line = str_bytes("  ");
        if st.flags.dry_run {
            push_str(&mut line, "[dry-run]");
        } else {
            push_str(&mut line, "[sent]  ");
        }
        push_str(&mut line, " ");
        let shown = display_sentence(&words);
        line.extend_from_slice(shown.as_slice());
        let ghost lv = line@;
        assert(lv =~= text("  ") + (if st.flags.dry_run {
            text("[dry-run]")
        } else {
            text("[sent]  ")
        }) + text(" ") + display_words(ws));
        acts.push(DeployAction::Print(line));
        proof {
            first = seq![SpecAction::Print(lv)];
            assert(actions_view(acts@) =~= before + first);
        }
    } else {
        assert(actions_view(acts@) =~= before + first);
    }
    let ghost mid = actions_view(acts@);
    let ghost second: Seq<SpecAction> = Seq::empty();
    if !st.flags.dry_run {
        acts.push(DeployAction::Send(words));
        proof {
            second = seq![SpecAction::Send(ws)];
        }
        assert(actions_view(acts@) =~= mid + second);
    } else {
        assert(actions_view(acts@) =~= mid + second);
    }
    assert(first + second =~= send_actions(*st, ws));
    assert(actions_view(acts@) =~= before + send_actions(*st, ws));
}

/// Starts a deployment of `record` to the device that the plugin configuration
/// `cfg` describes, with the WireGuard private key `wg_private_key`.
pub fn deploy(record: &NetworkRecord, wg_private_key: [u8; 32], cfg: &Attrs, flags: &DeployFlags) -> (r: Result<Deployment, DeployError>)
    ensures
        match r {
            Ok(d) => config_error(cfg@) is None && settings_match(
                *d.settings(),
                *record,
                wg_private_key@,
                cfg@,
                *flags,
            ) && d.stage() == Stage::Begin,
            Err(e) => config_error(cfg@) == Some(e),
        },
{
    match deploy_settings(record, wg_private_key, cfg, flags) {
        Ok(settings) => Ok(Deployment { settings, stage: Stage::Begin }),
        Err(e) => Err(e),
    }
}

impl Deployment {
    /// The settings of the deployment.
    pub closed spec fn settings(&self) -> &DeploySettings {
        &self.settings
    }

    /// Where the deployment stands.
    pub closed spec fn stage(&self) -> Stage {
        self.stage
    }

    /// The settings of the deployment.
    pub fn get_settings(&self) -> (r: &DeploySettings)
        ensures
            r == self.settings(),
    {
        &self.settings
    }

    /// Whether the deployment is complete.
    pub fn is_finished(&self) -> (r: bool)
        ensures
            r == (self.stage() == Stage::Finished),
    {
        match self.stage {
            Stage::Finished => true,
            _ => false,
        }
    }

    /// Takes the rows of the last query (none when there was no query) and
    /// gives the next actions; a failed step ends the deployment.
    pub fn step(&mut self, rows: &Vec<Attrs>) -> (r: Result<Vec<DeployAction>, DeployError>)
        ensures
            *final(self).settings() == *old(self).settings(),
            match r {
                Ok(acts) => spec_step(*old(self).settings(), old(self).stage(), rows_view(rows@))
                    == Ok::<(Seq<SpecAction>, Stage), DeployError>(
                    (actions_view(acts@), final(self).stage()),
                ),
                Err(e) => spec_step(*old(self).settings(), old(self).stage(), rows_view(rows@))
                    == Err::<(Seq<SpecAction>, Stage), DeployError>(e) && final(self).stage()
                    == Stage::Finished,
            },
    {
        let mut acts: Vec<DeployAction> = Vec::new();
        proof {
            assert(actions_view(acts@) =~= Seq::<SpecAction>::empty());
        }
        match self.stage {
            Stage::Begin => {
                if !self.settings.flags.dry_run {
                    acts.push(DeployAction::Connect);
                }
                push_query(&mut acts, &self.settings, Section::WireGuard);
                self.stage = Stage::AfterQuery(Section::WireGuard);
                proof {
                    let st = *old(self).settings();
                    assert(actions_view(acts@) =~= (if st.flags.dry_run {
                        Seq::empty()
                    } else {
                        seq![SpecAction::Connect]
                    }) + query_actions(st, Section::WireGuard));
                }
                Ok(acts)
            },
            Stage::AfterQuery(sec) => {
                match self.apply(&mut acts, sec, rows) {
                    Err(e) => {
                        self.stage = Stage::Finished;
                        return Err(e);
                    },
                    Ok(()) => {},
                }
                match sec {
                    Section::WireGuard => {
                        push_query(&mut acts, &self.settings, Section::Address);
                        self.stage = Stage::AfterQuery(Section::Address);
                    },
                    Section::Address => {
                        push_query(&mut acts, &self.settings, Section::BgpTemplate);
                        self.stage = Stage::AfterQuery(Section::BgpTemplate);
                    },
                    Section::BgpTemplate => {
                        let ghost before = actions_view(acts@);
                        let line = if self.settings.flags.dry_run {
                            str_bytes("  (dry-run complete — nothing sent)")
                        } else if self.settings.flags.stopped {
                            str_bytes("  deployed (stopped — interface disabled)")
                        } else {
                            str_bytes("  deployed and active")
                        };
                        acts.push(DeployAction::Print(line));
                        assert(actions_view(acts@) =~= before + seq![
                            SpecAction::Print(summary_line(self.settings.flags)),
                        ]);
                        self.stage = Stage::Finished;
                    },
                }
                Ok(acts)
            },
            Stage::Finished => Ok(acts),
        }
    }

    /// Appends the actions that set up section `sec` given its rows.
    fn apply(&self, acts: &mut Vec<DeployAction>, sec: Section, rows: &Vec<Attrs>) -> (r: Result<
        (),
        DeployError,
    >)
        ensures
            match apply_actions(self.settings, sec, rows_view(rows@)) {
                Ok(more) => r is Ok && actions_view(final(acts)@) == actions_view(old(acts)@)
                    + more,
                Err(e) => r == Err::<(), DeployError>(e),
            },
    {
        let st = &self.settings;
        let ghost before = actions_view(acts@);
        if !st.flags.dry_run && rows.len() > 0 {
            assert(rows_view(rows@)[0] == rows@[0]@);
            match rows[0].get(".id".as_bytes()) {
                None => Err(DeployError::MissingId(sec)),
                Some(id) => {
                    acts.push(DeployAction::Print(update_line(st, sec)));
                    let words = update_sentence(st, sec, id.as_slice());
                    push_send(acts, st, words);
                    assert(actions_view(acts@) =~= before + (seq![
                        SpecAction::Print(update_message(*st, sec)),
                    ] + send_actions(*st, update_words(*st, sec, id@))));
                    Ok(())
                },
            }
        } else {
            acts.push(DeployAction::Print(create_line(st, sec)));
            let words = create_sentence(st, sec);
            push_send(acts, st, words);
            assert(actions_view(acts@) =~= before + (seq![
                SpecAction::Print(create_message(*st, sec)),
            ] + send_actions(*st, create_words(*st, sec))));
            Ok(())
        }
    }
}


proof fn lemma_dry_query(st: DeploySettings, sec: Section)
    requires
        st.flags.dry_run,
    ensures
        query_actions(st, sec) == seq![
            SpecAction::Print(text("  [query]  ") + display_words(query_words(st, sec))),
        ],
{
    assert(query_actions(st, sec) =~= seq![
        SpecAction::Print(text("  [query]  ") + display_words(query_words(st, sec))),
    ]);
}

proof fn lemma_dry_send(st: DeploySettings, ws: Seq<Seq<u8>>)
    requires
        st.flags.dry_run,
    ensures
        send_actions(st, ws) == seq![
            SpecAction::Print(text("  ") + text("[dry-run]") + text(" ") + display_words(ws)),
        ],
{
    assert(send_actions(st, ws) =~= seq![
        SpecAction::Print(text("  ") + text("[dry-run]") + text(" ") + display_words(ws)),
    ]);
}

/// A dry run only prints: no step of it connects, queries or sends.
pub proof fn lemma_dry_run_only_prints(
    st: DeploySettings,
    stage: Stage,
    rows: Seq<Seq<(Seq<u8>, Seq<u8>)>>,
)
    requires
        st.flags.dry_run,
    ensures
        spec_step(st, stage, rows) matches Ok(out) ==> forall|i: int|
            0 <= i < out.0.len() ==> #[trigger] out.0[i] is Print,
{
    let e: Seq<SpecAction> = Seq::empty();
    match stage {
        Stage::Begin => {
            lemma_dry_query(st, Section::WireGuard);
            assert(spec_step(st, stage, rows).unwrap().0 =~= query_actions(st, Section::WireGuard));
        },
        Stage::AfterQuery(sec) => {
            lemma_dry_send(st, create_words(st, sec));
            let acts = seq![SpecAction::Print(create_message(st, sec))] + send_actions(
                st,
                create_words(st, sec),
            );
            assert(apply_actions(st, sec, rows) == Ok::<Seq<SpecAction>, DeployError>(acts));
            assert(acts.len() == 2 && acts[0] is Print && acts[1] is Print);
            match next_section(sec) {
                Some(n) => {
                    lemma_dry_query(st, n);
                    let out = acts + query_actions(st, n);
                    assert(out.len() == 3 && out[0] is Print && out[1] is Print && out[2] is Print);
                    assert forall|i: int| 0 <= i < out.len() implies #[trigger] out[i] is Print by {
                        if i == 0 {
                        } else if i == 1 {
                        } else {
                        }
                    }
                },
                None => {
                    let out = acts + seq![SpecAction::Print(summary_line(st.flags))];
                    assert(out.len() == 3 && out[0] is Print && out[1] is Print && out[2] is Print);
                    assert forall|i: int| 0 <= i < out.len() implies #[trigger] out[i] is Print by {
                        if i == 0 {
                        } else if i == 1 {
                        } else {
                        }
                    }
                },
            }
        },
        Stage::Finished => {},
    }
}


/// The number in a word `<prefix><digits>`: the word starts with the prefix
/// and the rest is the decimal spelling of `n`.
pub open spec fn spells_number(w: Seq<u8>, prefix: &str, n: nat) -> bool {
    &&& has_prefix(w, text(prefix))
    &&& w.skip(text(prefix).len() as int).len() > 0
    &&& all_digits(w.skip(text(prefix).len() as int))
    &&& digits_value(w.skip(text(prefix).len() as int)) == n
}

proof fn lemma_kv_number(prefix: &str, n: nat)
    ensures
        spells_number(kv(prefix, decimal(n)), prefix, n),
{
    lemma_decimal_digits(n);
    let w = kv(prefix, decimal(n));
    assert(w.take(text(prefix).len() as int) =~= text(prefix));
    assert(w.skip(text(prefix).len() as int) =~= decimal(n));
}

/// The commands carry the full numbers of the settings: the BGP template is
/// created and updated with `=as=` and the whole 32-bit AS number in decimal,
/// and the WireGuard interface with `=listen-port=` and the WireGuard port.
pub proof fn lemma_commands_carry_numbers(st: DeploySettings, id: Seq<u8>)
    ensures
        spells_number(update_words(st, Section::BgpTemplate, id)[2], "=as=", st.as_number as nat),
        spells_number(create_words(st, Section::BgpTemplate)[2], "=as=", st.as_number as nat),
        update_words(st, Section::BgpTemplate, id)[2] == create_words(st, Section::BgpTemplate)[2],
        spells_number(update_words(st, Section::WireGuard, id)[2], "=listen-port=", st.wg_port as nat),
        spells_number(create_words(st, Section::WireGuard)[2], "=listen-port=", st.wg_port as nat),
{
    lemma_kv_number("=as=", st.as_number as nat);
    lemma_kv_number("=listen-port=", st.wg_port as nat);
}


/// What a deployment looks for is what it creates: the WireGuard interface
/// and the BGP template are listed by the name they are created with, and the
/// address is listed by the interface it is assigned to; an update names the
/// entry by the `.id` it is given.
pub proof fn lemma_query_matches_create(st: DeploySettings, id: Seq<u8>)
    ensures
        query_words(st, Section::WireGuard)[1].skip(text("?name=").len() as int) == create_words(
            st,
            Section::WireGuard,
        )[1].skip(text("=name=").len() as int),
        query_words(st, Section::Address)[1].skip(text("?interface=").len() as int)
            == create_words(st, Section::Address)[2].skip(text("=interface=").len() as int),
        query_words(st, Section::BgpTemplate)[1].skip(text("?name=").len() as int) == create_words(
            st,
            Section::BgpTemplate,
        )[1].skip(text("=name=").len() as int),
        forall|sec: Section|
            #[trigger] update_words(st, sec, id)[1] == text("=.id=") + id,
{
    assert((text("?name=") + st.wg_name@).skip(text("?name=").len() as int) =~= st.wg_name@);
    assert((text("=name=") + st.wg_name@).skip(text("=name=").len() as int) =~= st.wg_name@);
    assert((text("?interface=") + st.wg_name@).skip(text("?interface=").len() as int)
        =~= st.wg_name@);
    assert((text("=interface=") + st.wg_name@).skip(text("=interface=").len() as int)
        =~= st.wg_name@);
    assert((text("?name=") + st.bgp_template@).skip(text("?name=").len() as int)
        =~= st.bgp_template@);
    assert((text("=name=") + st.bgp_template@).skip(text("=name=").len() as int)
        =~= st.bgp_template@);
}

} // verus!
