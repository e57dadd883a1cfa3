use http::httprequest::{HttpRequest, MalformedRequestLine, Method, Ressource, Version};

// Method tests
#[test]
fn method_get() {
    let method: Method = Method::from("GET");
    assert_eq!(Method::Get, method);
}

#[test]
fn method_post() {
    let method: Method = Method::from("POST");
    assert_eq!(Method::Post, method);
}

#[test]
fn wrong_method() {
    let method: Method = Method::from("WRONG");
    assert_eq!(Method::Uninitialized, method);
}

// Version tests
#[test]
fn http_version_1_1() {
    let version: Version = Version::from("HTTP/1.1");
    assert_eq!(Version::V1_1, version)
}

#[test]
fn http_bad_version() {
    let version: Version = Version::from("BAD");
    assert_eq!(Version::Uninitialized, version);
}

#[test]
fn http_version_2_0_unrecognized() {
    let version: Version = Version::from("HTTP/2.0");
    assert_eq!(Version::Uninitialized, version);
}

#[test]
fn method_is_case_sensitive() {
    assert_eq!(Method::Uninitialized, Method::from("get"));
    assert_eq!(Method::Uninitialized, Method::from("Post"));
}

// HttpRequest test

#[test]
fn test_process_request_line() {
    let line = "GET /greeting HTTP/1.1";

    let (method, version, ressource) = http::httprequest::process_request_line(line).unwrap();

    assert_eq!(Method::Get, method);
    assert_eq!(Version::V1_1, version);
    assert_eq!(Ressource::Path("/greeting".to_string()), ressource);
}

#[test]
fn test_process_headers_line() {
    let line = "Key:Value";

    let (key, value) = http::httprequest::process_headers_line(line);
    assert_eq!(("Key", "Value"), (key.as_str(), value.as_str()));
}

#[test]
fn test_http_request() {
    let request = r#"GET /greeting HTTP/1.1
HOST: localhost:3000
User-Agent: firefox
Accept: */*

DATA
"#;
    let request: HttpRequest = HttpRequest::from(request.to_string());

    assert_eq!(Version::V1_1, request.version);
    assert_eq!(Method::Get, request.method);
    assert_eq!(Ressource::Path("/greeting".to_string()), request.ressource);
    assert_eq!("DATA", request.msg_body.as_str());
    assert_eq!(3, request.headers.len());
    assert_eq!(
        Some("localhost:3000"),
        request.headers.get("HOST").map(|v| v.as_str())
    );
    assert_eq!(
        Some("firefox"),
        request.headers.get("User-Agent").map(|v| v.as_str())
    );
    assert_eq!(Some("*/*"), request.headers.get("Accept").map(|v| v.as_str()));
}

#[test]
fn header_value_is_trimmed() {
    let (key, value) = http::httprequest::process_headers_line("Key:   Value  ");
    assert_eq!("Key", key.as_str());
    assert_eq!("Value", value.as_str());
}

#[test]
fn header_splits_at_first_colon() {
    let (key, value) = http::httprequest::process_headers_line("HOST: localhost:3000");
    assert_eq!("HOST", key.as_str());
    assert_eq!("localhost:3000", value.as_str());
}

#[test]
fn headers_line_without_colon_yields_empty_pair() {
    let (key, value) = http::httprequest::process_headers_line("no separator here");
    assert_eq!("", key.as_str());
    assert_eq!("", value.as_str());
}

#[test]
fn request_line_with_extra_tokens_keeps_first_three() {
    let (method, version, ressource) =
        http::httprequest::process_request_line("POST /x HTTP/1.1 extra").unwrap();
    assert_eq!(Method::Post, method);
    assert_eq!(Version::V1_1, version);
    assert_eq!(Ressource::Path("/x".to_string()), ressource);
}

#[test]
fn request_line_with_two_tokens_is_malformed() {
    let r = http::httprequest::process_request_line("GET HTTP/1.1");
    assert_eq!(Err(MalformedRequestLine), r);
}

#[test]
fn parse_reports_malformed_request_line() {
    let r = HttpRequest::parse("GET HTTP/1.1\n\nDATA\n");
    assert!(r.is_err());
}

#[test]
fn parse_accepts_well_formed_message() {
    let req = HttpRequest::parse("GET / HTTP/1.1\nA: b\n\nDATA\n").unwrap();
    assert_eq!(Method::Get, req.method);
    assert_eq!(Ressource::Path("/".to_string()), req.ressource);
    assert_eq!(Some("b"), req.headers.get("A").map(|v| v.as_str()));
    assert_eq!("DATA", req.msg_body.as_str());
}

#[test]
fn from_skips_malformed_request_line() {
    let req = HttpRequest::from("GET HTTP/1.1\nA: b\n".to_string());
    assert_eq!(Method::Uninitialized, req.method);
    assert_eq!(Version::Uninitialized, req.version);
    assert_eq!(Ressource::Path(String::new()), req.ressource);
    assert_eq!(Some("b"), req.headers.get("A").map(|v| v.as_str()));
}

#[test]
fn empty_input_yields_uninitialized_request() {
    let req = HttpRequest::from(String::new());
    assert_eq!(Method::Uninitialized, req.method);
    assert_eq!(Version::Uninitialized, req.version);
    assert_eq!(Ressource::Path(String::new()), req.ressource);
    assert_eq!(0, req.headers.len());
    assert_eq!("", req.msg_body.as_str());
}

#[test]
fn last_body_line_wins() {
    let req = HttpRequest::from("GET / HTTP/1.1\n\nFIRST\nSECOND\n".to_string());
    assert_eq!("SECOND", req.msg_body.as_str());
}

#[test]
fn duplicate_header_keeps_last_value() {
    let req = HttpRequest::from("GET / HTTP/1.1\nA: one\nA: two\n".to_string());
    assert_eq!(1, req.headers.len());
    assert_eq!(Some("two"), req.headers.get("A").map(|v| v.as_str()));
}

#[test]
fn crlf_line_endings_are_stripped() {
    let req = HttpRequest::from("GET /p HTTP/1.1\r\nA: b\r\n\r\nDATA\r\n".to_string());
    assert_eq!(Method::Get, req.method);
    assert_eq!(Ressource::Path("/p".to_string()), req.ressource);
    assert_eq!(Some("b"), req.headers.get("A").map(|v| v.as_str()));
    assert_eq!("DATA", req.msg_body.as_str());
}
