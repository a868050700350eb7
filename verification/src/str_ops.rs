//! Small string rules used while reading startup parameters: defaulting an
//! empty answer, translating the name "localhost", and picking the role.

use vstd::prelude::*;

use crate::types::NetMode;

verus! {

/// What "localhost" stands for on this network.
pub const LOCAL_IP: &'static str = "192.168.129.84";

/// Character-for-character equality of two strings.
pub fn str_eq(a: &str, b: &str) -> (r: bool)
    ensures
        r == (a@ == b@),
{
    let n = a.unicode_len();
    if n != b.unicode_len() {
        return false;
    }
    let mut i: usize = 0;
    while i < n
        invariant
            n == a@.len(),
            n == b@.len(),
            i <= n,
            forall|k: int| 0 <= k < i ==> a@[k] == b@[k],
        decreases n - i,
    {
        if a.get_char(i) != b.get_char(i) {
            return false;
        }
        i = i + 1;
    }
    proof {
        assert(a@ =~= b@);
    }
    true
}

/// The given string, or the default where the answer was empty.
pub fn default_string(string: &str, default: &str) -> (r: String)
    ensures
        r@ == if string@.len() == 0 {
            default@
        } else {
            string@
        },
{
    if string.is_empty() {
        default.to_owned()
    } else {
        string.to_owned()
    }
}

/// The given host, with the name "localhost" replaced by this machine's
/// address.
pub fn translate_localhost(string: &str) -> (r: String)
    ensures
        r@ == if string@ == "localhost"@ {
            LOCAL_IP@
        } else {
            string@
        },
{
    if str_eq(string, "localhost") {
        LOCAL_IP.to_owned()
    } else {
        string.to_owned()
    }
}

/// The ASCII lowercase image of a character.
pub open spec fn spec_lower(c: char) -> char {
    if 65 <= c as int && c as int <= 90 {
        ((c as u8) + 32) as char
    } else {
        c
    }
}

/// A string lowered character by character.
pub open spec fn spec_lower_seq(s: Seq<char>) -> Seq<char> {
    Seq::new(s.len(), |i: int| spec_lower(s[i]))
}

/// The ASCII lowercase image of a character.
fn lower_char(c: char) -> (r: char)
    ensures
        r == spec_lower(c),
{
    let u = c as u32;
    if 65 <= u && u <= 90 {
        ((u + 32) as u8) as char
    } else {
        c
    }
}

/// The role named by a startup argument: "server" in any letter case means
/// the server role, anything else the client role.
pub fn net_mode_from_string(mode_str: &str) -> (r: NetMode)
    ensures
        r == if spec_lower_seq(mode_str@) == "server"@ {
            NetMode::Server
        } else {
            NetMode::Client
        },
{
    proof {
        reveal_strlit("server");
    }
    let n = mode_str.unicode_len();
    if n != 6 {
        proof {
            reveal_strlit("server");
            assert("server"@.len() == 6);
            assert(spec_lower_seq(mode_str@).len() != "server"@.len());
        }
        return NetMode::Client;
    }
    let mut i: usize = 0;
    while i < 6
        invariant
            n == 6,
            n == mode_str@.len(),
            i <= 6,
            forall|k: int| 0 <= k < i ==> spec_lower(mode_str@[k]) == "server"@[k],
        decreases 6 - i,
    {
        proof {
            reveal_strlit("server");
        }
        let c = lower_char(mode_str.get_char(i));
        let expected = "server".get_char(i);
        if c != expected {
            proof {
                assert(spec_lower_seq(mode_str@)[i as int] != "server"@[i as int]);
            }
            return NetMode::Client;
        }
        i = i + 1;
    }
    proof {
        assert(spec_lower_seq(mode_str@) =~= "server"@);
    }
    NetMode::Server
}

} // verus!
