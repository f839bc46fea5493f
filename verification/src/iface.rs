//! What the kernel's interface files say.

use crate::mac;
use crate::mac::MacError;
use crate::text;
use vstd::prelude::*;

verus! {

/// The file that holds an attribute of an interface.
pub open spec fn attribute_path(iface: Seq<char>, attribute: Seq<char>) -> Seq<char> {
    "/sys/class/net/"@ + iface + "/"@ + attribute
}

fn path_of(iface: &str, attribute: &str) -> (path: String)
    ensures
        path@ == attribute_path(iface@, attribute@),
{
    let mut path: String = String::new();
    text::append(&mut path, "/sys/class/net/");
    text::append(&mut path, iface);
    text::append(&mut path, "/");
    text::append(&mut path, attribute);
    assert(path@ =~= attribute_path(iface@, attribute@));
    path
}

/// The file that holds the hardware address of an interface.
pub fn mac_path(iface: &str) -> (path: String)
    ensures
        path@ == attribute_path(iface@, "address"@),
        path@ == "/sys/class/net/"@ + iface@ + "/address"@,
{
    proof {
        reveal_strlit("/");
        reveal_strlit("address");
        reveal_strlit("/address");
        assert("/"@ + "address"@ =~= "/address"@);
        assert("/sys/class/net/"@ + iface@ + "/"@ + "address"@ =~= "/sys/class/net/"@ + iface@ + (
        "/"@ + "address"@));
    }
    path_of(iface, "address")
}

/// The file that holds the index of an interface.
pub fn ifindex_path(iface: &str) -> (path: String)
    ensures
        path@ == attribute_path(iface@, "ifindex"@),
        path@ == "/sys/class/net/"@ + iface@ + "/ifindex"@,
{
    proof {
        reveal_strlit("/");
        reveal_strlit("ifindex");
        reveal_strlit("/ifindex");
        assert("/"@ + "ifindex"@ =~= "/ifindex"@);
        assert("/sys/class/net/"@ + iface@ + "/"@ + "ifindex"@ =~= "/sys/class/net/"@ + iface@ + (
        "/"@ + "ifindex"@));
    }
    path_of(iface, "ifindex")
}

/// Reads a hardware address out of its file's contents.
pub fn iface_mac(contents: &str) -> (r: Result<[u8; 6], MacError>)
    ensures
        match r {
            Ok(m) => mac::mac_of(text::trimmed(contents@)) == Ok::<Seq<u8>, MacError>(m@),
            Err(e) => mac::mac_of(text::trimmed(contents@)) == Err::<Seq<u8>, MacError>(e),
        },
{
    let trimmed: String = text::trim_text(contents);
    mac::parse_mac(trimmed.as_str())
}

/// Reads an interface index out of its file's contents.
pub fn iface_ifindex(contents: &str) -> (r: Option<u32>)
    ensures
        match r {
            Some(n) => text::u32_of(text::trimmed(contents@)) == Some(n as int),
            None => text::u32_of(text::trimmed(contents@)) is None,
        },
{
    let trimmed: String = text::trim_text(contents);
    text::parse_u32(trimmed.as_str())
}

/// Reads an interface index out of its file's contents as the signed number
/// that packet sockets take.
pub fn read_iface_index(contents: &str) -> (r: Option<i32>)
    ensures
        match r {
            Some(n) => text::i32_of(text::trimmed(contents@)) == Some(n as int),
            None => text::i32_of(text::trimmed(contents@)) is None,
        },
{
    let trimmed: String = text::trim_text(contents);
    text::parse_i32(trimmed.as_str())
}

} // verus!
