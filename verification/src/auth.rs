//! Bearer tokens in `Authorization` headers.

use vstd::prelude::*;

verus! {

/// Whether a byte may stand in a header value that is read as text: a visible
/// ASCII character, a space or a tab.
pub open spec fn visible(b: u8) -> bool {
    32 <= b < 127 || b == 9
}

/// What precedes the token.
pub open spec fn bearer() -> Seq<u8> {
    seq![66u8, 101u8, 97u8, 114u8, 101u8, 114u8, 32u8]
}

/// Whether a header value grants access: it is text, and it is the word
/// `Bearer`, a space and the token.
pub open spec fn grants(value: Seq<u8>, token: Seq<u8>) -> bool {
    &&& forall|i: int| 0 <= i < value.len() ==> visible(#[trigger] value[i])
    &&& value == bearer() + token
}

/// Compares two byte strings, looking at every byte where the lengths agree.
pub fn constant_time_eq(a: &[u8], b: &[u8]) -> (r: bool)
    ensures
        r == (a@ == b@),
{
    if a.len() != b.len() {
        return false;
    }
    let mut diff: u8 = 0;
    let mut i: usize = 0;
    assert(a@.take(0) =~= b@.take(0));
    while i < a.len()
        invariant
            i <= a@.len() == b@.len(),
            diff == 0 <==> a@.take(i as int) == b@.take(i as int),
        decreases a@.len() - i,
    {
        let x: u8 = a[i];
        let y: u8 = b[i];
        let ghost before = diff;
        diff = diff | (x ^ y);
        proof {
            assert((before | (x ^ y)) == 0 <==> before == 0 && x == y) by (bit_vector);
            let p = a@.take(i as int);
            let q = b@.take(i as int);
            assert(a@.take(i + 1) =~= p.push(x));
            assert(b@.take(i + 1) =~= q.push(y));
            if a@.take(i + 1) == b@.take(i + 1) {
                assert(p =~= q) by {
                    assert forall|k: int| 0 <= k < p.len() implies p[k] == q[k] by {
                        assert(a@.take(i + 1)[k] == b@.take(i + 1)[k]);
                    }
                }
                assert(a@.take(i + 1)[i as int] == b@.take(i + 1)[i as int]);
            }
        }
        i += 1;
    }
    assert(a@.take(i as int) =~= a@);
    assert(b@.take(i as int) =~= b@);
    diff == 0
}

/// Decides whether a request with the given `Authorization` header, if it has
/// one, may pass.
pub fn authorized(header: Option<&[u8]>, token: &str) -> (r: bool)
    ensures
        r == (header is Some && grants(header.unwrap()@, vstd::utf8::encode_utf8(token@))),
{
    let value: &[u8] = match header {
        Some(value) => value,
        None => return false,
    };
    let mut i: usize = 0;
    while i < value.len()
        invariant
            i <= value@.len(),
            header == Some(value),
            forall|k: int| 0 <= k < i ==> visible(#[trigger] value@[k]),
        decreases value@.len() - i,
    {
        let b: u8 = value[i];
        if !((b >= 32 && b < 127) || b == 9) {
            assert(!visible(value@[i as int]));
            return false;
        }
        i += 1;
    }
    let ghost whole = bearer() + vstd::utf8::encode_utf8(token@);
    if value.len() < 7 || value[0] != 66 || value[1] != 101 || value[2] != 97 || value[3] != 114
        || value[4] != 101 || value[5] != 114 || value[6] != 32 {
        assert(value@ != whole) by {
            if value@ == whole {
                assert(value@[0] == 66 && value@[1] == 101 && value@[2] == 97 && value@[3] == 114
                    && value@[4] == 101 && value@[5] == 114 && value@[6] == 32);
            }
        }
        return false;
    }
    let given: &[u8] = vstd::slice::slice_subrange(value, 7, value.len());
    proof {
        assert(value@.take(7) =~= bearer());
        assert(value@ =~= bearer() + given@);
        if value@ == whole {
            assert(given@ =~= whole.skip(7));
            assert(vstd::utf8::encode_utf8(token@) =~= whole.skip(7));
        }
    }
    constant_time_eq(given, token.as_bytes())
}

/// A request whose header is made of the token itself passes, as long as the
/// token is visible ASCII.
pub proof fn law_token_of_visible_characters_passes(token: Seq<u8>)
    requires
        forall|i: int| 0 <= i < token.len() ==> visible(#[trigger] token[i]),
    ensures
        grants(bearer() + token, token),
{
    let value = bearer() + token;
    assert forall|i: int| 0 <= i < value.len() implies visible(#[trigger] value[i]) by {
        if i >= 7 {
            assert(value[i] == token[i - 7]);
        }
    }
}

/// No token but the right one passes.
pub proof fn law_other_tokens_are_refused(token: Seq<u8>, other: Seq<u8>)
    requires
        other != token,
    ensures
        !grants(bearer() + other, token),
{
    if bearer() + other == bearer() + token {
        assert((bearer() + other).skip(7) =~= other);
        assert((bearer() + token).skip(7) =~= token);
    }
}

/// The answer to a request that may not pass.
pub open spec fn is_refusal(status: u16, body: Seq<char>) -> bool {
    status == 401 && body == "unauthorized"@
}

/// The status and the body of the answer to a request that may not pass.
pub fn unauthorized() -> (r: (u16, String))
    ensures
        is_refusal(r.0, r.1@),
        r.0 == 401,
        r.1@ == "unauthorized"@,
{
    (401, "unauthorized".to_string())
}

/// The answer that stands in place of the requested one, if the request may
/// not pass.
pub fn auth_layer(header: Option<&[u8]>, token: &str) -> (r: Option<(u16, String)>)
    ensures
        match r {
            None => header is Some && grants(header.unwrap()@, vstd::utf8::encode_utf8(token@)),
            Some((status, body)) => is_refusal(status, body@) && !(header is Some && grants(
                header.unwrap()@,
                vstd::utf8::encode_utf8(token@),
            )),
        },
{
    if authorized(header, token) {
        None
    } else {
        Some(unauthorized())
    }
}

/// A header value grants access exactly if each of its bytes is a tab or lies
/// from the space to the tilde, its first seven bytes spell `Bearer` and a
/// space, and each byte after these is that of the token, as many as it has.
pub proof fn law_header_spells_the_token(value: Seq<u8>, token: Seq<u8>)
    ensures
        grants(value, token) <==> {
            &&& value.len() == 7 + token.len()
            &&& forall|i: int|
                0 <= i < value.len() ==> (#[trigger] value[i]) == 9 || 32 <= value[i] <= 126
            &&& value[0] == 'B' as u8
            &&& value[1] == 'e' as u8
            &&& value[2] == 'a' as u8
            &&& value[3] == 'r' as u8
            &&& value[4] == 'e' as u8
            &&& value[5] == 'r' as u8
            &&& value[6] == ' ' as u8
            &&& forall|i: int| 0 <= i < token.len() ==> value[i + 7] == #[trigger] token[i]
        },
{
    let whole = bearer() + token;
    if grants(value, token) {
        assert forall|i: int| 0 <= i < token.len() implies value[i + 7] == #[trigger] token[i] by {
            assert(whole[i + 7] == token[i]);
        }
        assert forall|i: int| 0 <= i < value.len() implies (#[trigger] value[i]) == 9 || 32
            <= value[i] <= 126 by {
            assert(visible(value[i]));
        }
    }
    if value.len() == 7 + token.len() && value[0] == 66 && value[1] == 101 && value[2] == 97
        && value[3] == 114 && value[4] == 101 && value[5] == 114 && value[6] == 32 && (forall|
        i: int,
    |
        0 <= i < token.len() ==> value[i + 7] == #[trigger] token[i]) {
        assert forall|i: int| 0 <= i < value.len() implies value[i] == whole[i] by {
            if i >= 7 {
                assert(token[i - 7] == value[i - 7 + 7]);
            }
        }
        assert(value =~= whole);
    }
}

/// What refuses a request is the status 401 and the word `unauthorized`.
pub proof fn law_refusals_say_unauthorized(status: u16, body: Seq<char>)
    ensures
        is_refusal(status, body) <==> status == 401 && body == "unauthorized"@,
{
}

} // verus!
