use sendgrid_templates::error::SendgridError;
use sendgrid_templates::headers::get_headers;
use sendgrid_templates::json::{parse_json, write_json, JsonValue};
use sendgrid_templates::ops::{
    add_version_request, create_request, create_response, get_version_request, list_request,
    list_response, version_response, Method,
};

fn obj_field<'a>(v: &'a JsonValue, key: &str) -> &'a JsonValue {
    match v {
        JsonValue::Obj(ms) => {
            for (k, w) in ms.iter() {
                if k == key {
                    return w;
                }
            }
            panic!("missing field {}", key);
        }
        _ => panic!("not an object"),
    }
}

#[test]
fn headers_for_valid_key() {
    let hs = get_headers("SG.abc-123").unwrap();
    assert_eq!(hs.len(), 3);
    assert_eq!(hs[0].0, "Authorization");
    assert_eq!(hs[0].1, "Bearer SG.abc-123");
    assert_eq!(hs[1].0, "Content-Type");
    assert_eq!(hs[1].1, "application/json");
    assert_eq!(hs[2].0, "User-Agent");
    assert_eq!(hs[2].1, "sendgrid-rs");
}

#[test]
fn headers_reject_control_characters() {
    let r = get_headers("bad\nkey");
    assert!(matches!(r, Err(SendgridError::InvalidCredential)));
    let r = get_headers("bad\u{7f}key");
    assert!(matches!(r, Err(SendgridError::InvalidCredential)));
}

#[test]
fn headers_accept_tab_and_unicode() {
    assert!(get_headers("a\tb").is_ok());
    assert!(get_headers("cl\u{e9}").is_ok());
}

#[test]
fn create_request_shape() {
    let req = create_request("key", String::from("welcome")).unwrap();
    assert!(matches!(req.method, Method::Post));
    assert_eq!(req.url, "https://api.sendgrid.com/v3/templates");
    assert_eq!(
        req.body.as_deref(),
        Some(r#"{"name":"welcome","generation":"dynamic"}"#)
    );
    assert_eq!(req.headers[0].1, "Bearer key");
}

#[test]
fn list_request_shape() {
    let req = list_request("key").unwrap();
    assert!(matches!(req.method, Method::Get));
    assert_eq!(req.url, "https://api.sendgrid.com/v3/templates?generations=dynamic");
    assert!(req.body.is_none());
}

#[test]
fn get_version_request_shape() {
    let req = get_version_request("key", "d-123", "v-9").unwrap();
    assert!(matches!(req.method, Method::Get));
    assert_eq!(req.url, "https://api.sendgrid.com/v3/templates/d-123/versions/v-9");
    assert!(req.body.is_none());
}

#[test]
fn add_version_request_shape() {
    let req = add_version_request("key", "d-123").unwrap();
    assert!(matches!(req.method, Method::Post));
    assert_eq!(req.url, "https://api.sendgrid.com/v3/templates/d-123/versions");
    assert_eq!(
        req.body.as_deref(),
        Some(
            r#"{"template_id":"d-123","active":1,"name":"name","html_content":"html_content","plain_content":"plain_content","subject":"my subject"}"#
        )
    );
}

#[test]
fn create_returns_exactly_the_id() {
    let body = r#"{"id":"d-777","name":"n","generation":"dynamic","updated_at":null,"versions":[]}"#;
    let id = create_response(200, body).unwrap();
    assert_eq!(id, "d-777");
}

#[test]
fn create_ignores_unknown_fields() {
    let body = r#"{"id":"d-1","name":"n","versions":[],"extra":"ignored"}"#;
    assert_eq!(create_response(201, body).unwrap(), "d-1");
}

#[test]
fn non_2xx_is_request_not_successful() {
    let body = r#"{"errors":[{"message":"authorization required"}]}"#;
    match create_response(401, body) {
        Err(SendgridError::RequestNotSuccessful(status, text)) => {
            assert_eq!(status, 401);
            assert_eq!(text, body);
        }
        _ => panic!("expected RequestNotSuccessful"),
    }
    match list_response(500, "oops") {
        Err(SendgridError::RequestNotSuccessful(status, text)) => {
            assert_eq!(status, 500);
            assert_eq!(text, "oops");
        }
        _ => panic!("expected RequestNotSuccessful"),
    }
    assert!(matches!(
        version_response(404, ""),
        Err(SendgridError::RequestNotSuccessful(404, _))
    ));
}

#[test]
fn invalid_json_is_deserialization_failure() {
    let truncated = r#"{"id":"d-1","name"#;
    assert!(matches!(
        create_response(200, truncated),
        Err(SendgridError::DeserializationFailure(_))
    ));
    assert!(matches!(
        list_response(200, "not json"),
        Err(SendgridError::DeserializationFailure(_))
    ));
    assert!(matches!(
        version_response(200, "[1,2"),
        Err(SendgridError::DeserializationFailure(_))
    ));
}

#[test]
fn wrong_shape_is_deserialization_failure() {
    // Valid JSON, but `subject` is missing from the version record.
    let body = r#"{"id":"v-1","template_id":"d-1","active":1,"name":"n","editor":"code"}"#;
    assert!(matches!(
        version_response(200, body),
        Err(SendgridError::DeserializationFailure(_))
    ));
    // Valid JSON, but `active` is a string rather than a number.
    let body =
        r#"{"id":"v-1","template_id":"d-1","active":"1","name":"n","subject":"s","editor":"e"}"#;
    assert!(matches!(
        version_response(200, body),
        Err(SendgridError::DeserializationFailure(_))
    ));
}

#[test]
fn list_preserves_length_and_order() {
    let body = r#"{"templates":[{"id":"d-1","name":"one","versions":[]},{"id":"d-2","name":"two","generation":"dynamic","versions":[]},{"id":"d-3","name":"three","versions":[]}]}"#;
    let ts = list_response(200, body).unwrap();
    assert_eq!(ts.len(), 3);
    assert_eq!(ts[0].id, "d-1");
    assert_eq!(ts[1].id, "d-2");
    assert_eq!(ts[2].id, "d-3");
    assert_eq!(ts[1].generation.as_deref(), Some("dynamic"));
    assert!(ts[0].generation.is_none());
}

#[test]
fn list_decodes_embedded_versions() {
    let body = r#"{"templates":[{"id":"d-1","name":"one","versions":[{"id":"v-1","name":"first","template_id":"d-1","active":1,"editor":"code","subject":"hello","updated_at":"2020-01-01 10:00:00"}]}]}"#;
    let ts = list_response(200, body).unwrap();
    assert_eq!(ts[0].versions.len(), 1);
    let v = &ts[0].versions[0];
    assert_eq!(v.id, "v-1");
    assert_eq!(v.template_id, "d-1");
    assert_eq!(v.active, 1);
    assert_eq!(v.subject, "hello");
}

#[test]
fn version_record_decodes_fully() {
    let body = r#"{"id":"v-1","template_id":"d-1","updated_at":"2020-01-01","thumbnail_url":null,"user_id":42,"active":0,"name":"n","html_content":"<b>x</b>","plain_content":null,"generate_plain_content":true,"subject":"s","editor":"design","test_data":null,"warnings":[{"message":"unresolved merge tag"}]}"#;
    let v = version_response(200, body).unwrap();
    assert_eq!(v.id, "v-1");
    assert_eq!(v.template_id, "d-1");
    assert_eq!(v.updated_at.as_deref(), Some("2020-01-01"));
    assert!(v.thumbnail_url.is_none());
    assert_eq!(v.user_id, Some(42));
    assert_eq!(v.active, 0);
    assert_eq!(v.html_content.as_deref(), Some("<b>x</b>"));
    assert!(v.plain_content.is_none());
    assert_eq!(v.generate_plain_content, Some(true));
    assert_eq!(v.subject, "s");
    assert_eq!(v.editor, "design");
    let warnings = v.warnings.unwrap();
    assert_eq!(warnings.len(), 1);
    assert_eq!(warnings[0].message, "unresolved merge tag");
}

#[test]
fn add_version_body_round_trips() {
    let req = add_version_request("key", "d-round").unwrap();
    let body = req.body.unwrap();
    let parsed = parse_json(&body).expect("the emitted body is valid JSON");
    match obj_field(&parsed, "template_id") {
        JsonValue::Str(s) => assert_eq!(s, "d-round"),
        _ => panic!("template_id is not a string"),
    }
    match obj_field(&parsed, "active") {
        JsonValue::UInt(n) => assert_eq!(*n, 1),
        _ => panic!("active is not a number"),
    }
    match obj_field(&parsed, "subject") {
        JsonValue::Str(s) => assert_eq!(s, "my subject"),
        _ => panic!("subject is not a string"),
    }
}

#[test]
fn writer_escapes_and_parser_unescapes() {
    let v = JsonValue::Str(String::from("a\"b\\c\nd\te\u{1}"));
    let s = write_json(&v);
    assert_eq!(s, r#""a\"b\\c\nd\te\u0001""#);
    match parse_json(&s) {
        Some(JsonValue::Str(t)) => assert_eq!(t, "a\"b\\c\nd\te\u{1}"),
        _ => panic!("string did not round trip"),
    }
}

#[test]
fn parser_handles_unicode_escapes() {
    match parse_json(r#""A\u00e9""#) {
        Some(JsonValue::Str(t)) => assert_eq!(t, "A\u{e9}"),
        _ => panic!("expected a string"),
    }
    // A surrogate pair decodes to one character beyond the basic plane.
    match parse_json(r#""\ud83d\ude00""#) {
        Some(JsonValue::Str(t)) => assert_eq!(t, "\u{1f600}"),
        _ => panic!("expected a string"),
    }
    // A lone surrogate is rejected.
    assert!(parse_json(r#""\ud83d""#).is_none());
}

#[test]
fn parser_bounds_numbers() {
    assert!(matches!(parse_json("4294967295"), Some(JsonValue::UInt(4294967295))));
    assert!(parse_json("4294967296").is_none());
    assert!(parse_json("-1").is_none());
    assert!(parse_json("1.5").is_none());
}

#[test]
fn parser_accepts_whitespace_and_nesting() {
    let v = parse_json(" { \"a\" : [ 1 , true , null ] } ").unwrap();
    match obj_field(&v, "a") {
        JsonValue::Arr(els) => {
            assert_eq!(els.len(), 3);
            assert!(matches!(els[0], JsonValue::UInt(1)));
            assert!(matches!(els[1], JsonValue::Bool(true)));
            assert!(matches!(els[2], JsonValue::Null));
        }
        _ => panic!("expected an array"),
    }
}

#[test]
fn parser_rejects_trailing_text() {
    assert!(parse_json("{} extra").is_none());
    assert!(parse_json("").is_none());
}

#[test]
fn emitted_bodies_agree_with_serde_json() {
    let req = create_request("key", String::from("wel\"come\n")).unwrap();
    let body = req.body.unwrap();
    let v: serde_json::Value = serde_json::from_str(&body).expect("serde_json accepts the body");
    assert_eq!(v.get("name").and_then(|x| x.as_str()), Some("wel\"come\n"));
    assert_eq!(v.get("generation").and_then(|x| x.as_str()), Some("dynamic"));

    let req = add_version_request("key", "d-1").unwrap();
    let v: serde_json::Value =
        serde_json::from_str(&req.body.unwrap()).expect("serde_json accepts the body");
    assert_eq!(v.get("template_id").and_then(|x| x.as_str()), Some("d-1"));
    assert_eq!(v.get("active").and_then(|x| x.as_u64()), Some(1));
    assert_eq!(v.get("subject").and_then(|x| x.as_str()), Some("my subject"));
}

#[test]
fn redirect_status_is_request_not_successful() {
    // The success class is exactly 2xx: a 3xx answer is a request failure too.
    let body = r#"{"id":"d-1","name":"n","versions":[]}"#;
    assert!(matches!(
        create_response(304, body),
        Err(SendgridError::RequestNotSuccessful(304, _))
    ));
    assert!(matches!(
        create_response(199, body),
        Err(SendgridError::RequestNotSuccessful(199, _))
    ));
}

#[test]
fn empty_key_builds_headers() {
    let hs = get_headers("").unwrap();
    assert_eq!(hs[0].1, "Bearer ");
}

#[test]
fn leading_zero_numbers_are_invalid_json() {
    assert!(matches!(parse_json("0"), Some(JsonValue::UInt(0))));
    assert!(parse_json("01").is_none());
    assert!(parse_json("007").is_none());
    // A leading-zero number anywhere in a 2xx body is a deserialization
    // failure, never a silently-wrong Ok.
    let body = r#"{"id":"v-1","template_id":"d-1","active":01,"name":"n","subject":"s","editor":"e"}"#;
    assert!(matches!(
        version_response(200, body),
        Err(SendgridError::DeserializationFailure(_))
    ));
    let body = r#"{"templates":[],"z":01}"#;
    assert!(matches!(
        list_response(200, body),
        Err(SendgridError::DeserializationFailure(_))
    ));
    let body = r#"{"id":"d-1","name":"n","versions":[],"z":01}"#;
    assert!(matches!(
        create_response(200, body),
        Err(SendgridError::DeserializationFailure(_))
    ));
}

#[test]
fn duplicate_recognized_field_is_rejected() {
    let body = r#"{"id":"d-1","id":"d-2","name":"n","versions":[]}"#;
    assert!(matches!(
        create_response(200, body),
        Err(SendgridError::DeserializationFailure(_))
    ));
    let body = r#"{"templates":[],"templates":[]}"#;
    assert!(matches!(
        list_response(200, body),
        Err(SendgridError::DeserializationFailure(_))
    ));
}

#[test]
fn duplicate_unknown_member_is_ignored() {
    let body = r#"{"id":"d-1","extra":1,"extra":2,"name":"n","versions":[]}"#;
    assert_eq!(create_response(200, body).unwrap(), "d-1");
}

#[test]
fn identifiers_are_path_encoded() {
    let req = get_version_request("key", "d 1", "v?2#x").unwrap();
    assert_eq!(
        req.url,
        "https://api.sendgrid.com/v3/templates/d%201/versions/v%3F2%23x"
    );
    let req = add_version_request("key", "cl\u{e9}{a}").unwrap();
    assert_eq!(
        req.url,
        "https://api.sendgrid.com/v3/templates/cl%C3%A9%7Ba%7D/versions"
    );
    // Slashes separate path segments; tabs and line breaks are dropped.
    let req = get_version_request("key", "a/b", "v\t1").unwrap();
    assert_eq!(req.url, "https://api.sendgrid.com/v3/templates/a/b/versions/v1");
}
