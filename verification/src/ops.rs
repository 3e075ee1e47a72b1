//! The four template operations, each split into its two pure halves: building
//! the outbound request, and mapping the status and body of the response into
//! a typed result. The network round trip between the two halves belongs to
//! the embedding application.

use vstd::prelude::*;

verus! {

use vstd::string::StringExecFns;
use crate::error::{SendgridError, SendgridResult, SpecError};
use crate::headers::{get_headers, valid_api_key, spec_headers, headers_denote};
use crate::json::{SpecJson, JsonValue, jser, sp_doc, parse_json, write_json, jv_view, jv_view_members};
use crate::model::{
    Template, TemplateVersion, dec_template, dec_templates, dec_template_version, tpl_views,
};

/// The HTTP method of a request; the API uses no others.
pub enum Method {
    Get,
    Post,
}

/// An outbound request, fully determined: method, absolute URL, headers in
/// order, and the body if the operation has one.
pub struct HttpRequest {
    /// HTTP method.
    pub method: Method,
    /// Absolute URL, query included.
    pub url: String,
    /// Header names and values, in order.
    pub headers: Vec<(String, String)>,
    /// JSON body, where the operation sends one.
    pub body: Option<String>,
}

/// A response counts as success exactly when its status is in the 2xx class.
pub open spec fn is_success(status: u16) -> bool {
    200 <= status < 300
}

/// The templates collection URL.
pub open spec fn templates_url() -> Seq<char> {
    "https://api.sendgrid.com/v3/templates"@
}

/// The templates collection URL restricted to dynamic templates.
pub open spec fn list_url() -> Seq<char> {
    "https://api.sendgrid.com/v3/templates?generations=dynamic"@
}

/// The digit character for a value below 16, upper case as URLs carry it.
pub open spec fn hex_upper(n: int) -> char {
    if n == 0 { '0' }
    else if n == 1 { '1' }
    else if n == 2 { '2' }
    else if n == 3 { '3' }
    else if n == 4 { '4' }
    else if n == 5 { '5' }
    else if n == 6 { '6' }
    else if n == 7 { '7' }
    else if n == 8 { '8' }
    else if n == 9 { '9' }
    else if n == 10 { 'A' }
    else if n == 11 { 'B' }
    else if n == 12 { 'C' }
    else if n == 13 { 'D' }
    else if n == 14 { 'E' }
    else { 'F' }
}

/// A byte that may not stand raw in a URL path: the controls, space, and the
/// path percent-encode set `"` `<` `>` `` ` `` `#` `?` `{` `}`.
pub open spec fn path_escape_byte(b: u8) -> bool {
    b < 0x20 || b == 0x7f || b == 0x20 || b == 0x22 || b == 0x3c || b == 0x3e || b == 0x60 || b
        == 0x23 || b == 0x3f || b == 0x7b || b == 0x7d
}

/// One byte in percent form.
pub open spec fn pct(b: u8) -> Seq<char> {
    seq!['%', hex_upper(b as int / 16), hex_upper(b as int % 16)]
}

/// A run of bytes in percent form.
pub open spec fn pct_bytes(bs: Seq<u8>) -> Seq<char>
    decreases bs.len(),
{
    if bs.len() == 0 {
        Seq::empty()
    } else {
        pct(bs[0]) + pct_bytes(bs.drop_first())
    }
}

/// How one character of an identifier appears in a request path: tabs and
/// line breaks are dropped, a slash or backslash separates segments, a byte
/// of the path percent-encode set goes in percent form, any other ASCII byte
/// stands raw, and a character beyond ASCII has each byte of its UTF-8
/// encoding percent-encoded.
pub open spec fn path_char(c: char) -> Seq<char> {
    if c == '\t' || c == '\n' || c == '\r' {
        Seq::empty()
    } else if c == '/' || c == '\\' {
        seq!['/']
    } else if (c as u32) < 0x80 {
        if path_escape_byte((c as u32) as u8) {
            pct((c as u32) as u8)
        } else {
            seq![c]
        }
    } else {
        pct_bytes(vstd::utf8::encode_scalar(c as u32))
    }
}

/// An identifier as it appears in a request path.
pub open spec fn path_escaped(s: Seq<char>) -> Seq<char>
    decreases s.len(),
{
    if s.len() == 0 {
        Seq::empty()
    } else {
        path_char(s[0]) + path_escaped(s.drop_first())
    }
}

/// The versions collection URL of one template.
pub open spec fn versions_url(template_id: Seq<char>) -> Seq<char> {
    "https://api.sendgrid.com/v3/templates/"@ + path_escaped(template_id) + "/versions"@
}

/// The URL of one version of one template.
pub open spec fn version_url(template_id: Seq<char>, version_id: Seq<char>) -> Seq<char> {
    "https://api.sendgrid.com/v3/templates/"@ + path_escaped(template_id) + "/versions/"@
        + path_escaped(version_id)
}

/// Path escaping distributes over concatenation.
proof fn lemma_path_escaped_append(a: Seq<char>, b: Seq<char>)
    ensures
        path_escaped(a + b) == path_escaped(a) + path_escaped(b),
    decreases a.len(),
{
    if a.len() == 0 {
        assert(a + b =~= b);
        assert(path_escaped(a) + path_escaped(b) =~= path_escaped(b));
    } else {
        assert((a + b).drop_first() =~= a.drop_first() + b);
        assert((a + b).len() > 0 && (a + b)[0] == a[0]);
        lemma_path_escaped_append(a.drop_first(), b);
        assert(path_char(a[0]) + (path_escaped(a.drop_first()) + path_escaped(b))
            =~= (path_char(a[0]) + path_escaped(a.drop_first())) + path_escaped(b));
    }
}

/// Percent forms distribute over byte concatenation.
proof fn lemma_pct_bytes_append(a: Seq<u8>, b: Seq<u8>)
    ensures
        pct_bytes(a + b) == pct_bytes(a) + pct_bytes(b),
    decreases a.len(),
{
    if a.len() == 0 {
        assert(a + b =~= b);
        assert(pct_bytes(a) + pct_bytes(b) =~= pct_bytes(b));
    } else {
        assert((a + b).drop_first() =~= a.drop_first() + b);
        assert((a + b).len() > 0 && (a + b)[0] == a[0]);
        lemma_pct_bytes_append(a.drop_first(), b);
        assert(pct(a[0]) + (pct_bytes(a.drop_first()) + pct_bytes(b))
            =~= (pct(a[0]) + pct_bytes(a.drop_first())) + pct_bytes(b));
    }
}

fn hex_upper_ch(n: u8) -> (r: char)
    requires
        n < 16,
    ensures
        r == hex_upper(n as int),
{
    if n == 0 { '0' }
    else if n == 1 { '1' }
    else if n == 2 { '2' }
    else if n == 3 { '3' }
    else if n == 4 { '4' }
    else if n == 5 { '5' }
    else if n == 6 { '6' }
    else if n == 7 { '7' }
    else if n == 8 { '8' }
    else if n == 9 { '9' }
    else if n == 10 { 'A' }
    else if n == 11 { 'B' }
    else if n == 12 { 'C' }
    else if n == 13 { 'D' }
    else if n == 14 { 'E' }
    else { 'F' }
}

/// Relies on `char::encode_utf8`: it writes exactly the UTF-8 encoding of the
/// character, the byte sequence [`vstd::utf8::encode_scalar`] gives for its
/// scalar value.
#[verifier::external_body]
fn utf8_of(c: char) -> (r: Vec<u8>)
    ensures
        r@ == vstd::utf8::encode_scalar(c as u32),
{
    let mut buf = [0u8; 4];
    c.encode_utf8(&mut buf).as_bytes().to_vec()
}

fn push_pct(b: u8, out: &mut String)
    ensures
        final(out)@ == old(out)@ + pct(b),
{
    crate::json::push_char(out, '%');
    crate::json::push_char(out, hex_upper_ch(b / 16));
    crate::json::push_char(out, hex_upper_ch(b % 16));
    assert(final(out)@ =~= old(out)@ + pct(b));
}

fn push_path_char(c: char, out: &mut String)
    ensures
        final(out)@ == old(out)@ + path_char(c),
{
    if c == '\t' || c == '\n' || c == '\r' {
        assert(final(out)@ =~= old(out)@ + path_char(c));
    } else if c == '/' || c == '\\' {
        crate::json::push_char(out, '/');
        assert(final(out)@ =~= old(out)@ + path_char(c));
    } else if (c as u32) < 0x80 {
        let b = (c as u32) as u8;
        if b < 0x20 || b == 0x7f || b == 0x20 || b == 0x22 || b == 0x3c || b == 0x3e || b == 0x60
            || b == 0x23 || b == 0x3f || b == 0x7b || b == 0x7d {
            push_pct(b, out);
        } else {
            crate::json::push_char(out, c);
            assert(final(out)@ =~= old(out)@ + path_char(c));
        }
    } else {
        let bs = utf8_of(c);
        let n = bs.len();
        let mut i: usize = 0;
        proof {
            assert(bs@.take(0) =~= Seq::<u8>::empty());
        }
        while i < n
            invariant
                i <= n,
                n == bs@.len(),
                bs@ == vstd::utf8::encode_scalar(c as u32),
                out@ == old(out)@ + pct_bytes(bs@.take(i as int)),
            decreases n - i,
        {
            push_pct(bs[i], out);
            proof {
                lemma_pct_bytes_append(bs@.take(i as int), seq![bs@[i as int]]);
                assert(bs@.take(i as int) + seq![bs@[i as int]] =~= bs@.take(i as int + 1));
                assert(seq![bs@[i as int]].drop_first() =~= Seq::<u8>::empty());
                assert(pct_bytes(Seq::<u8>::empty()) =~= Seq::<char>::empty());
                assert(pct_bytes(seq![bs@[i as int]]) =~= pct(bs@[i as int]) + pct_bytes(
                    Seq::<u8>::empty(),
                ));
                assert(pct_bytes(seq![bs@[i as int]]) =~= pct(bs@[i as int]));
                assert(old(out)@ + pct_bytes(bs@.take(i as int)) + pct(bs@[i as int])
                    =~= old(out)@ + pct_bytes(bs@.take(i as int + 1)));
            }
            i += 1;
        }
        assert(bs@.take(n as int) =~= bs@);
    }
}

/// Append an identifier in its request-path form.
fn append_path_escaped(s: &str, out: &mut String)
    ensures
        final(out)@ == old(out)@ + path_escaped(s@),
{
    let cs = crate::json::chars_vec(s);
    let n = cs.len();
    let mut i: usize = 0;
    while i < n
        invariant
            n == cs@.len(),
            cs@ == s@,
            i <= n,
            out@ == old(out)@ + path_escaped(s@.take(i as int)),
        decreases n - i,
    {
        push_path_char(cs[i], out);
        proof {
            lemma_path_escaped_append(s@.take(i as int), seq![s@[i as int]]);
            assert(s@.take(i as int) + seq![s@[i as int]] =~= s@.take(i as int + 1));
            assert(seq![s@[i as int]].drop_first() =~= Seq::<char>::empty());
            assert(path_escaped(Seq::<char>::empty()) =~= Seq::<char>::empty());
            assert(path_escaped(seq![s@[i as int]]) =~= path_char(s@[i as int]) + path_escaped(
                Seq::<char>::empty(),
            ));
            assert(path_escaped(seq![s@[i as int]]) =~= path_char(s@[i as int]));
            assert(old(out)@ + path_escaped(s@.take(i as int)) + path_char(s@[i as int])
                =~= old(out)@ + path_escaped(s@.take(i as int + 1)));
        }
        i += 1;
    }
    assert(s@.take(n as int) =~= s@);
}

/// The body sent when creating a template: its name, and the fixed dynamic
/// generation tag.
pub open spec fn create_body(name: Seq<char>) -> SpecJson {
    SpecJson::Obj(
        seq![("name"@, SpecJson::Str(name)), ("generation"@, SpecJson::Str("dynamic"@))],
    )
}

/// The body sent when adding a version: the owning template, active set to 1,
/// and the fixed placeholder name, contents and subject.
pub open spec fn add_version_body(template_id: Seq<char>) -> SpecJson {
    SpecJson::Obj(
        seq![
            ("template_id"@, SpecJson::Str(template_id)),
            ("active"@, SpecJson::UInt(1)),
            ("name"@, SpecJson::Str("name"@)),
            ("html_content"@, SpecJson::Str("html_content"@)),
            ("plain_content"@, SpecJson::Str("plain_content"@)),
            ("subject"@, SpecJson::Str("my subject"@)),
        ],
    )
}

/// Build the in-memory create body.
pub fn create_body_value(name: String) -> (r: JsonValue)
    ensures
        r@ == create_body(name@),
{
    let ghost n0 = name@;
    let mut ms: Vec<(String, JsonValue)> = Vec::new();
    ms.push((String::from_str("name"), JsonValue::Str(name)));
    ms.push((String::from_str("generation"), JsonValue::Str(String::from_str("dynamic"))));
    let ghost m = ms@;
    let r = JsonValue::Obj(ms);
    proof {
        crate::json::lemma_view_members_index(m);
        assert(m.len() == 2);
        assert(jv_view(m[0].1) == SpecJson::Str(n0) && m[0].0@ == "name"@);
        assert(jv_view(m[1].1) == SpecJson::Str("dynamic"@) && m[1].0@ == "generation"@);
        assert(jv_view_members(m) =~~= create_body(n0)->Obj_0);
        assert(r@ == create_body(n0));
    }
    r
}

/// Build the in-memory add-version body.
pub fn add_version_body_value(template_id: String) -> (r: JsonValue)
    ensures
        r@ == add_version_body(template_id@),
{
    let ghost t0 = template_id@;
    let mut ms: Vec<(String, JsonValue)> = Vec::new();
    ms.push((String::from_str("template_id"), JsonValue::Str(template_id)));
    ms.push((String::from_str("active"), JsonValue::UInt(1)));
    ms.push((String::from_str("name"), JsonValue::Str(String::from_str("name"))));
    ms.push((
        String::from_str("html_content"),
        JsonValue::Str(String::from_str("html_content")),
    ));
    ms.push((
        String::from_str("plain_content"),
        JsonValue::Str(String::from_str("plain_content")),
    ));
    ms.push((String::from_str("subject"), JsonValue::Str(String::from_str("my subject"))));
    let ghost m = ms@;
    let r = JsonValue::Obj(ms);
    proof {
        crate::json::lemma_view_members_index(m);
        assert(m.len() == 6);
        assert(jv_view(m[0].1) == SpecJson::Str(t0) && m[0].0@ == "template_id"@);
        assert(jv_view(m[1].1) == SpecJson::UInt(1) && m[1].0@ == "active"@);
        assert(jv_view(m[2].1) == SpecJson::Str("name"@) && m[2].0@ == "name"@);
        assert(jv_view(m[3].1) == SpecJson::Str("html_content"@) && m[3].0@ == "html_content"@);
        assert(jv_view(m[4].1) == SpecJson::Str("plain_content"@) && m[4].0@
            == "plain_content"@);
        assert(jv_view(m[5].1) == SpecJson::Str("my subject"@) && m[5].0@ == "subject"@);
        assert(jv_view_members(m) =~~= add_version_body(t0)->Obj_0);
        assert(r@ == add_version_body(t0));
    }
    r
}

/// Build the request that creates a template: a POST of the create body to the
/// collection URL, with the standard headers. Fails exactly when the key is
/// not a legal header value.
pub fn create_request(api_key: &str, template_name: String) -> (r: Result<
    HttpRequest,
    SendgridError,
>)
    ensures
        valid_api_key(api_key@) ==> (r matches Ok(req) && req.method is Post && req.url@
            == templates_url() && headers_denote(req.headers@, spec_headers(api_key@)) && (
        req.body matches Some(b) && b@ == jser(create_body(template_name@)))),
        !valid_api_key(api_key@) ==> (r matches Err(e) && e is InvalidCredential),
{
    let headers = match get_headers(api_key) {
        Ok(h) => h,
        Err(e) => {
            return Err(e);
        }
    };
    let body = write_json(&create_body_value(template_name));
    Ok(
        HttpRequest {
            method: Method::Post,
            url: String::from_str("https://api.sendgrid.com/v3/templates"),
            headers,
            body: Some(body),
        },
    )
}

/// Build the request that lists dynamic templates: a GET of the collection URL
/// with the `generations=dynamic` query and the standard headers.
pub fn list_request(api_key: &str) -> (r: Result<HttpRequest, SendgridError>)
    ensures
        valid_api_key(api_key@) ==> (r matches Ok(req) && req.method is Get && req.url@
            == list_url() && headers_denote(req.headers@, spec_headers(api_key@))
            && req.body is None),
        !valid_api_key(api_key@) ==> (r matches Err(e) && e is InvalidCredential),
{
    let headers = match get_headers(api_key) {
        Ok(h) => h,
        Err(e) => {
            return Err(e);
        }
    };
    Ok(
        HttpRequest {
            method: Method::Get,
            url: String::from_str("https://api.sendgrid.com/v3/templates?generations=dynamic"),
            headers,
            body: None,
        },
    )
}

/// Build the request that fetches one version of one template: a GET of that
/// version's URL with the standard headers.
pub fn get_version_request(api_key: &str, template_id: &str, version_id: &str) -> (r: Result<
    HttpRequest,
    SendgridError,
>)
    ensures
        valid_api_key(api_key@) ==> (r matches Ok(req) && req.method is Get && req.url@
            == version_url(template_id@, version_id@) && headers_denote(
            req.headers@,
            spec_headers(api_key@),
        ) && req.body is None),
        !valid_api_key(api_key@) ==> (r matches Err(e) && e is InvalidCredential),
{
    let headers = match get_headers(api_key) {
        Ok(h) => h,
        Err(e) => {
            return Err(e);
        }
    };
    let mut url = String::from_str("https://api.sendgrid.com/v3/templates/");
    append_path_escaped(template_id, &mut url);
    url.append("/versions/");
    append_path_escaped(version_id, &mut url);
    Ok(HttpRequest { method: Method::Get, url, headers, body: None })
}

/// Build the request that adds a version to a template: a POST of the
/// add-version body to the template's versions URL, with the standard headers.
pub fn add_version_request(api_key: &str, template_id: &str) -> (r: Result<
    HttpRequest,
    SendgridError,
>)
    ensures
        valid_api_key(api_key@) ==> (r matches Ok(req) && req.method is Post && req.url@
            == versions_url(template_id@) && headers_denote(
            req.headers@,
            spec_headers(api_key@),
        ) && (req.body matches Some(b) && b@ == jser(add_version_body(template_id@)))),
        !valid_api_key(api_key@) ==> (r matches Err(e) && e is InvalidCredential),
{
    let headers = match get_headers(api_key) {
        Ok(h) => h,
        Err(e) => {
            return Err(e);
        }
    };
    let mut url = String::from_str("https://api.sendgrid.com/v3/templates/");
    append_path_escaped(template_id, &mut url);
    url.append("/versions");
    let body = write_json(&add_version_body_value(String::from_str(template_id)));
    Ok(HttpRequest { method: Method::Post, url, headers, body: Some(body) })
}

/// What `create` returns for a given status and body: the id of the template
/// record the body denotes, or the error the policy prescribes.
pub open spec fn spec_create(status: u16, body: Seq<char>) -> Result<Seq<char>, SpecError> {
    if !is_success(status) {
        Err(SpecError::RequestNotSuccessful(status, body))
    } else {
        match sp_doc(body) {
            None => Err(SpecError::DeserializationFailure(body)),
            Some(j) => match dec_template(j) {
                None => Err(SpecError::DeserializationFailure(body)),
                Some(t) => Ok(t.id),
            },
        }
    }
}

/// Map the response of `create`: on any 2xx body that decodes as a template,
/// exactly that template's id; any non-2xx status is a request failure carrying
/// the status and the raw body; any other 2xx body is a deserialization
/// failure.
pub fn create_response(status: u16, body: &str) -> (r: SendgridResult<String>)
    ensures
        r matches Ok(id) ==> spec_create(status, body@) == Ok::<Seq<char>, SpecError>(id@),
        r matches Err(e) ==> spec_create(status, body@) == Err::<Seq<char>, SpecError>(e@),
{
    if !(200 <= status && status < 300) {
        return Err(SendgridError::RequestNotSuccessful(status, String::from_str(body)));
    }
    match parse_json(body) {
        None => Err(SendgridError::DeserializationFailure(String::from_str(body))),
        Some(v) => match crate::model::template_from_json(&v) {
            None => Err(SendgridError::DeserializationFailure(String::from_str(body))),
            Some(t) => Ok(t.id),
        },
    }
}

/// What `list` returns for a given status and body: the template sequence the
/// body's `templates` member denotes, in order, or the prescribed error.
pub open spec fn spec_list(status: u16, body: Seq<char>) -> Result<
    Seq<crate::model::SpecTemplate>,
    SpecError,
> {
    if !is_success(status) {
        Err(SpecError::RequestNotSuccessful(status, body))
    } else {
        match sp_doc(body) {
            None => Err(SpecError::DeserializationFailure(body)),
            Some(j) => match dec_templates(j) {
                None => Err(SpecError::DeserializationFailure(body)),
                Some(ts) => Ok(ts),
            },
        }
    }
}

/// Map the response of `list`: the decoded templates in server order, or the
/// prescribed error.
pub fn list_response(status: u16, body: &str) -> (r: SendgridResult<Vec<Template>>)
    ensures
        r matches Ok(ts) ==> spec_list(status, body@) == Ok::<_, SpecError>(tpl_views(ts@)),
        r matches Err(e) ==> spec_list(status, body@) == Err::<Seq<crate::model::SpecTemplate>,
            _,
        >(e@),
{
    if !(200 <= status && status < 300) {
        return Err(SendgridError::RequestNotSuccessful(status, String::from_str(body)));
    }
    match parse_json(body) {
        None => Err(SendgridError::DeserializationFailure(String::from_str(body))),
        Some(v) => match crate::model::templates_from_json(&v) {
            None => Err(SendgridError::DeserializationFailure(String::from_str(body))),
            Some(ts) => Ok(ts),
        },
    }
}

/// What `get_version` and `add_version` return for a given status and body:
/// the version record the body denotes, or the prescribed error.
pub open spec fn spec_version(status: u16, body: Seq<char>) -> Result<
    crate::model::SpecTemplateVersion,
    SpecError,
> {
    if !is_success(status) {
        Err(SpecError::RequestNotSuccessful(status, body))
    } else {
        match sp_doc(body) {
            None => Err(SpecError::DeserializationFailure(body)),
            Some(j) => match dec_template_version(j) {
                None => Err(SpecError::DeserializationFailure(body)),
                Some(tv) => Ok(tv),
            },
        }
    }
}

/// Map the response of `get_version` and of `add_version`: the decoded version
/// record, or the prescribed error.
pub fn version_response(status: u16, body: &str) -> (r: SendgridResult<TemplateVersion>)
    ensures
        r matches Ok(tv) ==> spec_version(status, body@) == Ok::<_, SpecError>(tv@),
        r matches Err(e) ==> spec_version(status, body@) == Err::<
            crate::model::SpecTemplateVersion,
            _,
        >(e@),
{
    if !(200 <= status && status < 300) {
        return Err(SendgridError::RequestNotSuccessful(status, String::from_str(body)));
    }
    match parse_json(body) {
        None => Err(SendgridError::DeserializationFailure(String::from_str(body))),
        Some(v) => match crate::model::template_version_from_json(&v) {
            None => Err(SendgridError::DeserializationFailure(String::from_str(body))),
            Some(tv) => Ok(tv),
        },
    }
}

} // verus!
