use http::headers::Headers;
use http::httpresponse::HttpResponse;
use std::io::Write;

struct FailingSink;

impl Write for FailingSink {
    fn write(&mut self, _buf: &[u8]) -> std::io::Result<usize> {
        Err(std::io::Error::new(std::io::ErrorKind::Other, "sink closed"))
    }

    fn flush(&mut self) -> std::io::Result<()> {
        Ok(())
    }
}

#[test]
fn build_response_round_trip() {
    let response = HttpResponse::new("200", None, Some("hi".to_string()));
    let serialized = response.serialize();
    assert_eq!(
        "HTTP/1.1 200 OK\r\nContent-Type:text/html\r\nContent-Length: 2\r\n\r\nhi",
        serialized.as_str()
    );
    assert!(serialized.contains("Content-Length: 2"));
    assert!(serialized.contains("OK"));
    assert!(serialized.contains("Content-Type:text/html\r\n"));
    let (_, body) = serialized.split_once("\r\n\r\n").unwrap();
    assert_eq!("hi", body);
}

#[test]
fn status_text_lookup() {
    assert_eq!("Bad Request", HttpResponse::new("400", None, None).status_text());
    assert_eq!(
        "Internal Server Error",
        HttpResponse::new("500", None, None).status_text()
    );
    assert_eq!("Not Found", HttpResponse::new("404", None, None).status_text());
    assert_eq!("Not Found", HttpResponse::new("201", None, None).status_text());
    assert_eq!("OK", HttpResponse::new("200", None, None).status_text());
}

#[test]
fn serialization_is_idempotent() {
    let response = HttpResponse::new("200", None, Some("payload".to_string()));
    let first = response.serialize();
    let second = response.serialize();
    assert_eq!(first.as_bytes(), second.as_bytes());
}

#[test]
fn accessors_report_constructed_fields() {
    let response = HttpResponse::new("400", None, Some("oops".to_string()));
    assert_eq!("HTTP/1.1", response.version());
    assert_eq!("400", response.status_code());
    assert_eq!("Bad Request", response.status_text());
    assert_eq!("Content-Type:text/html\r\n", response.headers().as_str());
    assert_eq!("oops", response.body());
}

#[test]
fn missing_body_serializes_with_zero_length() {
    let response = HttpResponse::new("200", None, None);
    assert_eq!("", response.body());
    assert_eq!(
        "HTTP/1.1 200 OK\r\nContent-Type:text/html\r\nContent-Length: 0\r\n\r\n",
        response.serialize().as_str()
    );
}

#[test]
fn caller_headers_serialize_in_insertion_order() {
    let mut headers = Headers::new();
    headers.insert("A".to_string(), "1".to_string());
    headers.insert("B".to_string(), "2".to_string());
    let response = HttpResponse::new("200", Some(headers), None);
    assert_eq!("A:1\r\nB:2\r\n", response.headers().as_str());
    assert_eq!(
        "HTTP/1.1 200 OK\r\nA:1\r\nB:2\r\nContent-Length: 0\r\n\r\n",
        response.serialize().as_str()
    );
}

#[test]
fn content_length_has_multiple_digits_for_long_bodies() {
    let body = "twelve chars".to_string();
    assert_eq!(12, body.len());
    let response = HttpResponse::new("200", None, Some(body));
    assert!(response.serialize().contains("Content-Length: 12\r\n"));
}

#[test]
fn content_length_counts_bytes_not_chars() {
    let body = "\u{e9}".to_string();
    assert_eq!(1, body.chars().count());
    let response = HttpResponse::new("200", None, Some(body));
    assert!(response.serialize().contains("Content-Length: 2\r\n"));
}

#[test]
fn send_writes_exactly_the_serialized_bytes() {
    let response = HttpResponse::new("200", None, Some("hi".to_string()));
    let mut sink: Vec<u8> = Vec::new();
    response.send(&mut sink).unwrap();
    assert_eq!(response.serialize().as_bytes(), sink.as_slice());
}

#[test]
fn send_surfaces_write_failure() {
    let response = HttpResponse::new("200", None, Some("hi".to_string()));
    let mut sink = FailingSink;
    assert!(response.send(&mut sink).is_err());
}

#[test]
fn headers_mapping_insert_replaces_in_place() {
    let mut headers = Headers::new();
    headers.insert("A".to_string(), "1".to_string());
    headers.insert("B".to_string(), "2".to_string());
    headers.insert("A".to_string(), "3".to_string());
    assert_eq!(2, headers.len());
    assert_eq!(Some("3"), headers.get("A").map(|v| v.as_str()));
    assert_eq!(Some("2"), headers.get("B").map(|v| v.as_str()));
    assert_eq!(None, headers.get("C").map(|v| v.as_str()));
    let response = HttpResponse::new("200", Some(headers), None);
    assert_eq!("A:3\r\nB:2\r\n", response.headers().as_str());
}
