//! The `network` commands: creating, showing, deleting, deploying and
//! listing networks.
use vstd::prelude::*;
use crate::bytes::{bytes_eq, utf8};

verus! {

/// A `network` command as given on the command line.
pub enum NetworkCmd {
    /// Create a network; a fresh device key is made unless `device_id` names one.
    Create { name: String, as_number: Option<u32>, device_id: Option<String> },
    /// Show a network and its plugin configurations.
    Show { name: String },
    /// Delete a network record, after confirmation unless `force`.
    Delete { name: String, force: bool },
    /// Deploy a network to its attached device.
    Deploy { name: String, stopped: bool, verbose: bool, dry_run: bool },
    /// List all networks.
    List,
}

/// White space as Unicode's `White_Space` property (and `char::is_whitespace`) has it.
pub open spec fn is_white_space(c: char) -> bool {
    let u = c as u32;
    ||| 0x9 <= u <= 0xD
    ||| u == 0x20
    ||| u == 0x85
    ||| u == 0xA0
    ||| u == 0x1680
    ||| 0x2000 <= u <= 0x200A
    ||| u == 0x2028
    ||| u == 0x2029
    ||| u == 0x202F
    ||| u == 0x205F
    ||| u == 0x3000
}

/// `s` without leading white space.
pub open spec fn trim_start(s: Seq<char>) -> Seq<char>
    decreases s.len(),
{
    if s.len() > 0 && is_white_space(s[0]) {
        trim_start(s.drop_first())
    } else {
        s
    }
}

/// `s` without trailing white space.
pub open spec fn trim_end(s: Seq<char>) -> Seq<char>
    decreases s.len(),
{
    if s.len() > 0 && is_white_space(s.last()) {
        trim_end(s.drop_last())
    } else {
        s
    }
}

/// `s` without leading and trailing white space (`str::trim`).
pub open spec fn str_trim(s: Seq<char>) -> Seq<char> {
    trim_end(trim_start(s))
}

/// `s` in lower case (`str::to_lowercase`).
pub uninterp spec fn str_lowercase(s: Seq<char>) -> Seq<char>;

/// `s` without leading and trailing white space (`str::trim`).
///
/// Trusted: as its documentation says, the result is `s` with leading and
/// trailing white space removed, white space being Unicode's `White_Space`.
#[verifier::external_body]
fn trim(s: &str) -> (r: &str)
    ensures
        r@ == str_trim(s@),
{
    s.trim()
}

/// `s` in lower case (`str::to_lowercase`).
///
/// Trusted: the result is a function of `s` alone (by Unicode's lower-case
/// mapping); nothing more is stated.
#[verifier::external_body]
fn to_lowercase(s: &str) -> (r: String)
    ensures
        r@ == str_lowercase(s@),
{
    s.to_lowercase()
}

proof fn lemma_utf8_injective(a: Seq<char>, b: Seq<char>)
    ensures
        utf8(a) == utf8(b) ==> a == b,
{
    vstd::utf8::encode_utf8_decode_utf8(a);
    vstd::utf8::encode_utf8_decode_utf8(b);
}

/// Whether a trimmed, lower-cased answer is `y` or `yes`.
pub fn is_yes(answer: &str) -> (r: bool)
    ensures
        r == (answer@ == "y"@ || answer@ == "yes"@),
{
    let b = answer.as_bytes();
    let y = "y".as_bytes();
    let yes = "yes".as_bytes();
    proof {
        lemma_utf8_injective(answer@, "y"@);
        lemma_utf8_injective(answer@, "yes"@);
    }
    bytes_eq(b, y) || bytes_eq(b, yes)
}

/// Whether an answer to "Delete network?" confirms: `y` or `yes`, in any
/// case, with white space around it.
pub fn confirms_deletion(answer: &str) -> (r: bool)
    ensures
        r == (str_lowercase(str_trim(answer@)) == "y"@ || str_lowercase(str_trim(answer@))
            == "yes"@),
{
    let lowered = to_lowercase(trim(answer));
    is_yes(lowered.as_str())
}

} // verus!
