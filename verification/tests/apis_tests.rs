use openbar_notifier::apis::{parse_deep_object, urlencode, ApiError, ContentType, JsonValue, ResponseContent};

fn s(t: &str) -> String {
    t.to_string()
}

fn pairs(v: &[(&str, &str)]) -> Vec<(String, String)> {
    v.iter().map(|(a, b)| (a.to_string(), b.to_string())).collect()
}

#[test]
fn urlencode_encodes_form_style() {
    assert_eq!(urlencode("abcXYZ019*-._"), "abcXYZ019*-._");
    assert_eq!(urlencode("a b"), "a+b");
    assert_eq!(urlencode("a&b=c/d?e~"), "a%26b%3Dc%2Fd%3Fe%7E");
    assert_eq!(urlencode("é"), "%C3%A9");
    assert_eq!(urlencode(""), "");
}

#[test]
fn deep_object_flattens_nested_values() {
    let value = JsonValue::Object(vec![
        (s("a"), JsonValue::String(s("x y"))),
        (s("b"), JsonValue::Object(vec![(s("c"), JsonValue::Number(s("1")))])),
        (
            s("d"),
            JsonValue::Array(vec![
                JsonValue::Object(vec![(s("e"), JsonValue::Bool(true))]),
                JsonValue::Object(vec![(s("f"), JsonValue::Bool(false))]),
            ]),
        ),
        (s("g"), JsonValue::Null),
        (s("h"), JsonValue::Number(s("2.5"))),
    ]);
    assert_eq!(
        parse_deep_object("p", &value),
        pairs(&[
            ("p[a]", "x y"),
            ("p[b][c]", "1"),
            ("p[d][0][e]", "true"),
            ("p[d][1][f]", "false"),
            ("p[g]", "null"),
            ("p[h]", "2.5"),
        ])
    );
}

#[test]
fn deep_object_of_empty_object_is_empty() {
    assert!(parse_deep_object("p", &JsonValue::Object(vec![])).is_empty());
    let value = JsonValue::Object(vec![(s("list"), JsonValue::Array(vec![]))]);
    assert!(parse_deep_object("q", &value).is_empty());
}

#[test]
fn content_types_are_classified() {
    assert!(matches!(ContentType::from("application/json"), ContentType::Json));
    assert!(matches!(ContentType::from("application/problem+json; charset=utf-8"), ContentType::Json));
    assert!(matches!(ContentType::from("text/plain; charset=utf-8"), ContentType::Text));
    assert!(matches!(ContentType::from("text/html"), ContentType::Unsupported(ref t) if t == "text/html"));
    assert!(matches!(ContentType::from("application/xml"), ContentType::Unsupported(ref t) if t == "application/xml"));
    assert!(matches!(ContentType::from("json/application"), ContentType::Unsupported(_)));
    assert!(matches!(ContentType::from(""), ContentType::Unsupported(ref t) if t.is_empty()));
}

#[test]
fn error_messages_name_their_source() {
    let serde_error = serde_json::from_str::<u32>("x").unwrap_err();
    let expected = format!("error in serde: {}", serde_error);
    let e: ApiError<()> = ApiError::from(serde_error);
    assert_eq!(e.message(), expected);

    let io_error = std::io::Error::new(std::io::ErrorKind::Other, "disk gone");
    let e: ApiError<()> = ApiError::from(io_error);
    assert_eq!(e.message(), "error in IO: disk gone");

    let e: ApiError<()> = ApiError::ResponseError(ResponseContent {
        status: reqwest::StatusCode::NOT_FOUND,
        content: s("missing"),
        entity: None,
    });
    assert_eq!(e.message(), "error in response: status code 404 Not Found");
}

#[test]
fn urlencoded_text_uses_only_safe_characters() {
    let encoded = urlencode("héllo wörld! #1 <tag> \"q\" 100% ~^`|\\");
    assert!(encoded
        .chars()
        .all(|c| c.is_ascii_alphanumeric() || "*-._+%".contains(c)));
    assert!(!encoded.contains(' '));
}

#[test]
fn deep_object_names_start_with_the_prefix() {
    let value = JsonValue::Object(vec![
        (s("x"), JsonValue::Array(vec![JsonValue::Object(vec![(s("y"), JsonValue::Null)])])),
        (s("z"), JsonValue::String(s("v"))),
    ]);
    let params = parse_deep_object("filter", &value);
    assert_eq!(params.len(), 2);
    assert!(params.iter().all(|(name, _)| name.starts_with("filter[")));
}

fn form_decode(text: &str) -> Vec<u8> {
    let b = text.as_bytes();
    let hex = |c: u8| (c as char).to_digit(16);
    let mut out = Vec::new();
    let mut i = 0;
    while i < b.len() {
        if b[i] == b'+' {
            out.push(b' ');
            i += 1;
        } else if b[i] == b'%' && i + 2 < b.len() && hex(b[i + 1]).is_some() && hex(b[i + 2]).is_some() {
            out.push((hex(b[i + 1]).unwrap() * 16 + hex(b[i + 2]).unwrap()) as u8);
            i += 3;
        } else {
            out.push(b[i]);
            i += 1;
        }
    }
    out
}

#[test]
fn urlencode_decodes_back_to_its_bytes() {
    for text in ["", "a b", "100% ~ sure+", "héllo wörld", "*-._", "a&b=c", "\u{1F600} smile"] {
        assert_eq!(form_decode(&urlencode(text)), text.as_bytes().to_vec());
    }
}

#[test]
fn rejected_response_message_shows_the_status() {
    let e: ApiError<()> = ApiError::ResponseError(ResponseContent {
        status: reqwest::StatusCode::from_u16(599).unwrap(),
        content: s(""),
        entity: None,
    });
    assert_eq!(e.message(), "error in response: status code 599 <unknown status code>");
}
