use http_pipeline::http_response::{HttpResponse, HttpStatusCode};

fn bytes_to_string(bytes: &[u8]) -> String {
    String::from_utf8(bytes.to_vec()).unwrap()
}

#[test]
fn empty_response_serializes_exactly() {
    let resp = HttpResponse::new(HttpStatusCode::OK);
    let bytes = resp.to_bytes();
    assert_eq!(
        bytes_to_string(&bytes),
        "HTTP/1.1 200 OK\r\nContent-Length: 0\r\n\r\n"
    );
}

#[test]
fn text_body_recomputes_content_length() {
    let resp = HttpResponse::new(HttpStatusCode::OK).with_body("hello");
    assert_eq!(resp.get_header("Content-Length").unwrap().as_str(), "5");
    assert_eq!(resp.get_header("Content-Type").unwrap().as_str(), "text/plain");
    let bytes = resp.to_bytes();
    assert_eq!(
        bytes_to_string(&bytes),
        "HTTP/1.1 200 OK\r\nContent-Length: 5\r\nContent-Type: text/plain\r\n\r\nhello"
    );
}

#[test]
fn content_length_matches_every_body_size() {
    let sizes: Vec<usize> = vec![0, 1, 9, 10, 99, 100, 12345];
    for n in sizes {
        let body: Vec<u8> = vec![7u8; n];
        let resp = HttpResponse::new(HttpStatusCode::OK).with_bytes_body(body, "application/octet-stream");
        assert_eq!(
            resp.get_header("Content-Length").unwrap().as_str(),
            n.to_string().as_str()
        );
        let wire = resp.to_bytes();
        let text_end = wire.windows(4).position(|w| w == b"\r\n\r\n").unwrap() + 4;
        assert_eq!(wire.len() - text_end, n);
        let head = bytes_to_string(&wire[..text_end]);
        assert!(head.contains(&format!("Content-Length: {}\r\n", n)));
    }
}

#[test]
fn set_header_overwrites_in_place() {
    let mut resp = HttpResponse::new(HttpStatusCode::Created);
    resp.set_header("X-One", "a");
    resp.set_header("X-One", "b");
    assert_eq!(resp.get_header("X-One").unwrap().as_str(), "b");
    let text = bytes_to_string(&resp.to_bytes());
    assert_eq!(text.matches("X-One").count(), 1);
}

#[test]
fn status_lines_carry_code_and_reason() {
    let cases = vec![
        (HttpStatusCode::OK, "HTTP/1.1 200 OK\r\n"),
        (HttpStatusCode::Created, "HTTP/1.1 201 Created\r\n"),
        (HttpStatusCode::BadRequest, "HTTP/1.1 400 Bad Request\r\n"),
        (HttpStatusCode::NotFound, "HTTP/1.1 404 Not Found\r\n"),
        (HttpStatusCode::InternalServerError, "HTTP/1.1 500 Internal Server Error\r\n"),
        (HttpStatusCode::NotImplemented, "HTTP/1.1 501 Not Implemented\r\n"),
        (HttpStatusCode::ServiceUnavailable, "HTTP/1.1 503 Service Unavailable\r\n"),
    ];
    for (code, line) in cases {
        let text = bytes_to_string(&HttpResponse::new(code).to_bytes());
        assert!(text.starts_with(line));
    }
}

#[test]
fn binary_bodies_survive_untouched() {
    let body: Vec<u8> = vec![0u8, 155u8, 255u8, 13u8, 10u8, 0u8];
    let resp = HttpResponse::new(HttpStatusCode::OK).with_bytes_body(body.clone(), "application/octet-stream");
    let wire = resp.to_bytes();
    assert!(wire.ends_with(&body));
}
