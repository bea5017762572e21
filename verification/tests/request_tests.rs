use http_pipeline::errors::HttpError;
use http_pipeline::http_request::{parse_query_string, HttpMethod, HttpRequest};

#[test]
fn from_reader_smoke() {
    let requessst_str =
        "GET /qwe?p=1 HTTP/1.1\r\nHost: 127.0.0.1:4221\r\nUser-Agent: curl/8.5.0\r\nAccept: */*\r\n\r\n";
    let request = HttpRequest::parse(requessst_str, "").unwrap();
    assert_eq!(request.method, HttpMethod::GET);
    assert_eq!(request.path.as_str(), "/qwe");
    assert_eq!(request.qury.as_str(), "p=1");
    assert_eq!(request.http_version.as_str(), "HTTP/1.1");
    assert_eq!(request.headers.get("Host").unwrap().as_str(), "127.0.0.1:4221");
    assert_eq!(request.headers.get("User-Agent").unwrap().as_str(), "curl/8.5.0");
}

#[test]
fn test_content_to_string() {
    let head =
        "POST /api/user HTTP/1.1\r\nHost: 127.0.0.1:4221\r\nUser-Agent: curl/8.5.0\r\nAccept: */*\r\nContent-Length: 22\r\nContent-Type: application/x-www-form-urlencoded\r\n\r\n";
    let request = HttpRequest::parse(head, "name=admin&shoesize=12").unwrap();
    assert_eq!(request.method, HttpMethod::POST);
    assert_eq!(request.path.as_str(), "/api/user");
    assert_eq!(request.qury.as_str(), "");
    assert_eq!(request.http_version.as_str(), "HTTP/1.1");
    assert_eq!(request.headers.get("Host").unwrap().as_str(), "127.0.0.1:4221");
    assert_eq!(request.headers.get("User-Agent").unwrap().as_str(), "curl/8.5.0");
    assert_eq!(request.headers.get("Content-Length").unwrap().as_str(), "22");
    assert_eq!(
        request.headers.get("Content-Type").unwrap().as_str(),
        "application/x-www-form-urlencoded"
    );
    let mut content = request.content;
    let content_str = content.to_string();
    assert_eq!(content_str.as_str(), "name=admin&shoesize=12");
}

#[test]
fn from_reader_qury_params() {
    let requessst_str =
        "GET /qwe?p=1&p1=wer&q HTTP/1.1\r\nHost: 127.0.0.1:4221\r\nUser-Agent: curl/8.5.0\r\nAccept: */*\r\n\r\n";
    let request = HttpRequest::parse(requessst_str, "").unwrap();
    assert_eq!(request.method, HttpMethod::GET);
    assert_eq!(request.path.as_str(), "/qwe");
    assert_eq!(request.qury.as_str(), "p=1&p1=wer&q");
    assert_eq!(request.query_params.get("p").unwrap().as_str(), "1");
    assert_eq!(request.query_params.get("p1").unwrap().as_str(), "wer");
    assert_eq!(request.query_params.get("q").unwrap().as_str(), "");
    assert_eq!(request.http_version.as_str(), "HTTP/1.1");
    assert_eq!(request.headers.get("Host").unwrap().as_str(), "127.0.0.1:4221");
    assert_eq!(request.headers.get("User-Agent").unwrap().as_str(), "curl/8.5.0");
}

#[test]
fn query_string_pairs() {
    let qp = parse_query_string("p=1&p1=wer&q");
    assert_eq!(qp.get("p").unwrap().as_str(), "1");
    assert_eq!(qp.get("p1").unwrap().as_str(), "wer");
    assert_eq!(qp.get("q").unwrap().as_str(), "");
    assert!(qp.get("missing").is_none());
}

#[test]
fn body_is_read_at_most_once() {
    let request = HttpRequest::parse("POST /x HTTP/1.1\r\n\r\n", "the body").unwrap();
    let mut content = request.content;
    assert_eq!(content.to_string().as_str(), "the body");
    assert_eq!(content.to_string().as_str(), "");
    assert_eq!(content.to_string().as_str(), "");
}

#[test]
fn malformed_start_lines_are_rejected() {
    assert!(matches!(
        HttpRequest::parse("FETCH /x HTTP/1.1\r\n\r\n", ""),
        Err(HttpError::MalformedRequest)
    ));
    assert!(matches!(
        HttpRequest::parse("GET /x\r\n\r\n", ""),
        Err(HttpError::MalformedRequest)
    ));
    assert!(matches!(
        HttpRequest::parse("GET /x HTTP/1.1 extra\r\n\r\n", ""),
        Err(HttpError::MalformedRequest)
    ));
}

#[test]
fn header_without_colon_and_value_trimming() {
    let head = "GET / HTTP/1.1\r\nWeird\r\nPadded:   spaced out \r\n\r\n";
    let request = HttpRequest::parse(head, "").unwrap();
    assert_eq!(request.headers.get("Weird").unwrap().as_str(), "");
    assert_eq!(request.headers.get("Padded").unwrap().as_str(), "spaced out");
}

#[test]
fn duplicate_headers_keep_the_last_value() {
    let head = "GET / HTTP/1.1\r\nX-Tag: one\r\nX-Tag: two\r\n\r\n";
    let request = HttpRequest::parse(head, "").unwrap();
    assert_eq!(request.headers.get("X-Tag").unwrap().as_str(), "two");
}

#[test]
fn unicode_whitespace_is_trimmed_from_header_values() {
    let head = "GET / HTTP/1.1\r\nPadded:\u{a0}wide\u{a0}\r\n\r\n";
    let request = HttpRequest::parse(head, "").unwrap();
    assert_eq!(request.headers.get("Padded").unwrap().as_str(), "wide");
}
