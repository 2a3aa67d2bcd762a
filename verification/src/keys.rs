//! The names under which the MikroTik plugin keeps its settings.
use vstd::prelude::*;
use crate::bytes::text;

verus! {

/// The plugin type of the MikroTik plugin.
pub const PLUGIN_TYPE: &'static str = "mikrotik";

/// The RouterOS host.
pub const HOST: &'static str = "host";

/// The RouterOS API port.
pub const PORT: &'static str = "port";

/// The RouterOS user.
pub const USER: &'static str = "user";

/// The RouterOS password.
pub const PASSWORD: &'static str = "password";

/// The WireGuard interface name on the device.
pub const WG_NAME: &'static str = "wg_name";

/// The WireGuard overlay address with prefix length.
pub const WG_IP: &'static str = "wg_ip";

/// The WireGuard listen port.
pub const WG_PORT: &'static str = "wg_port";

/// Whether the API is reached over TLS.
pub const SSL: &'static str = "ssl";


/// The names under which the MikroTik plugin keeps its settings, in the
/// order in which they are written.
pub open spec fn setting_names() -> Seq<Seq<u8>> {
    seq![
        text(HOST),
        text(PORT),
        text(SSL),
        text(USER),
        text(PASSWORD),
        text(WG_NAME),
        text(WG_IP),
        text(WG_PORT),
    ]
}

/// No two settings share a name.
pub proof fn lemma_setting_names_distinct()
    ensures
        forall|i: int, j: int|
            0 <= i < j < setting_names().len() ==> #[trigger] setting_names()[i]
                != #[trigger] setting_names()[j],
{
    reveal_strlit("host");
    reveal_strlit("port");
    reveal_strlit("ssl");
    reveal_strlit("user");
    reveal_strlit("password");
    reveal_strlit("wg_name");
    reveal_strlit("wg_ip");
    reveal_strlit("wg_port");
    vstd::string::is_ascii_spec_bytes(HOST);
    vstd::string::is_ascii_spec_bytes(PORT);
    vstd::string::is_ascii_spec_bytes(SSL);
    vstd::string::is_ascii_spec_bytes(USER);
    vstd::string::is_ascii_spec_bytes(PASSWORD);
    vstd::string::is_ascii_spec_bytes(WG_NAME);
    vstd::string::is_ascii_spec_bytes(WG_IP);
    vstd::string::is_ascii_spec_bytes(WG_PORT);
    let n = setting_names();
    assert(n[0][0] == 104u8);
    assert(n[1][0] == 112u8);
    assert(n[2][0] == 115u8);
    assert(n[3][0] == 117u8);
    assert(n[4][0] == 112u8 && n[4].len() == 8);
    assert(n[5].len() == 7 && n[5][3] == 110u8);
    assert(n[6].len() == 5);
    assert(n[7].len() == 7 && n[7][3] == 112u8);
}

} // verus!
