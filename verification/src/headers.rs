//! Construction of the header set sent with every request: bearer-token
//! authentication, content type, and the fixed client identifier.

use vstd::prelude::*;

verus! {

use vstd::string::StrSliceExecFns;
use vstd::string::StringExecFns;
use crate::error::SendgridError;

/// A character is legal in an HTTP header value exactly when every byte of its
/// UTF-8 encoding is: horizontal tab, or any byte other than the controls
/// 0x00..=0x1f and 0x7f. Characters above 0x7f encode to bytes 0x80..=0xff,
/// which are all legal, so at the character level only the ASCII controls are
/// excluded.
pub open spec fn valid_header_char(c: char) -> bool {
    c == '\t' || (c as u32 >= 0x20 && c as u32 != 0x7f)
}

/// An API key is accepted exactly when every one of its characters may appear
/// in a header value; the fixed `Bearer ` prefix is always legal.
pub open spec fn valid_api_key(key: Seq<char>) -> bool {
    forall|i: int| 0 <= i < key.len() ==> valid_header_char(#[trigger] key[i])
}

/// The value of the `Authorization` header for a given key.
pub open spec fn bearer_value(key: Seq<char>) -> Seq<char> {
    "Bearer "@ + key
}

/// The exact header set of every request, in order: authorization, content
/// type, and the client identifier.
pub open spec fn spec_headers(key: Seq<char>) -> Seq<(Seq<char>, Seq<char>)> {
    seq![
        ("Authorization"@, bearer_value(key)),
        ("Content-Type"@, "application/json"@),
        ("User-Agent"@, "sendgrid-rs"@),
    ]
}

/// A header list (as built) denotes the given name/value sequence.
pub open spec fn headers_denote(hs: Seq<(String, String)>, m: Seq<(Seq<char>, Seq<char>)>) -> bool {
    &&& hs.len() == m.len()
    &&& forall|i: int| 0 <= i < hs.len()
        ==> (#[trigger] hs[i]).0@ == m[i].0 && hs[i].1@ == m[i].1
}

fn api_key_valid(key: &str) -> (r: bool)
    ensures
        r == valid_api_key(key@),
{
    let n = key.unicode_len();
    let mut i: usize = 0;
    while i < n
        invariant
            n == key@.len(),
            i <= n,
            forall|j: int| 0 <= j < i ==> valid_header_char(#[trigger] key@[j]),
        decreases n - i,
    {
        let c = key.get_char(i);
        if !(c == '\t' || (c as u32 >= 0x20 && c as u32 != 0x7f)) {
            assert(!valid_header_char(key@[i as int]));
            return false;
        }
        i += 1;
    }
    true
}

/// Build the three request headers for the given API key.
///
/// Succeeds if and only if every character of the key is legal in a header
/// value; the result is then exactly `Authorization: Bearer <key>`,
/// `Content-Type: application/json`, `User-Agent: sendgrid-rs`, in that order.
pub fn get_headers(api_key: &str) -> (r: Result<Vec<(String, String)>, SendgridError>)
    ensures
        valid_api_key(api_key@)
            ==> (r matches Ok(hs) && headers_denote(hs@, spec_headers(api_key@))),
        !valid_api_key(api_key@) ==> (r matches Err(e) && e is InvalidCredential),
{
    if !api_key_valid(api_key) {
        return Err(SendgridError::InvalidCredential);
    }
    let mut auth = String::from_str("Bearer ");
    auth.append(api_key);
    let mut headers: Vec<(String, String)> = Vec::new();
    headers.push((String::from_str("Authorization"), auth));
    headers.push((String::from_str("Content-Type"), String::from_str("application/json")));
    headers.push((String::from_str("User-Agent"), String::from_str("sendgrid-rs")));
    assert(headers@.len() == 3);
    Ok(headers)
}

/// Every ASCII key without control characters is a valid API key: header
/// construction is guaranteed to succeed on such keys.
pub proof fn lemma_printable_ascii_key_valid(key: Seq<char>)
    requires
        forall|i: int| 0 <= i < key.len()
            ==> 0x20 <= (#[trigger] key[i]) as u32 && (key[i] as u32) < 0x7f,
    ensures
        valid_api_key(key),
{
}

} // verus!
