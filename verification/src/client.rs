//! Where peers are asked, and what their answers mean.

use vstd::prelude::*;

verus! {

/// The URL that `url` reads from a text, in its normal form, if it reads one.
pub uninterp spec fn parsed_url(s: Seq<char>) -> Option<Seq<char>>;

/// The URL that `url` finds for a reference relative to a base URL, if it
/// finds one.
pub uninterp spec fn joined_url(base: Seq<char>, reference: Seq<char>) -> Option<Seq<char>>;

/// `url::Url::parse`: whether a text is an absolute URL, and its normal form,
/// which depend on the text alone.
#[verifier::external_body]
pub(crate) fn parse_url(s: &str) -> (r: Option<String>)
    ensures
        match r {
            Some(u) => parsed_url(s@) == Some(u@),
            None => parsed_url(s@) is None,
        },
{
    url::Url::parse(s).ok().map(String::from)
}

/// `url::Url::join` on the URL that a text writes: the URL that a reference
/// names relative to it, which depends on the two texts alone. There is none
/// where the base is no URL or the reference cannot be resolved.
#[verifier::external_body]
fn join_url(base: &str, reference: &str) -> (r: Option<String>)
    ensures
        match r {
            Some(u) => joined_url(base@, reference@) == Some(u@),
            None => joined_url(base@, reference@) is None,
        },
{
    let base = url::Url::parse(base).ok()?;
    base.join(reference).ok().map(String::from)
}

/// The place of a daemon's leases.
pub fn leases_url(endpoint: &str) -> (r: Option<String>)
    ensures
        match r {
            Some(u) => joined_url(endpoint@, "leases"@) == Some(u@),
            None => joined_url(endpoint@, "leases"@) is None,
        },
{
    join_url(endpoint, "leases")
}

/// The place of a gateway's daemons.
pub fn daemons_url(endpoint: &str) -> (r: Option<String>)
    ensures
        match r {
            Some(u) => joined_url(endpoint@, "daemons"@) == Some(u@),
            None => joined_url(endpoint@, "daemons"@) is None,
        },
{
    join_url(endpoint, "daemons")
}

} // verus!
