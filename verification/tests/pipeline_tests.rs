use std::io::Read;

use http_pipeline::errors::HandlerFault;
use http_pipeline::http_context::HttpContext;
use http_pipeline::http_request::{HttpMethod, HttpRequest};
use http_pipeline::http_response::{HttpResponse, HttpStatusCode};
use http_pipeline::http_server::{ConnectionAction, HttpServer};
use http_pipeline::middlewares::{
    DummyMiddleware, EncodingMiddleware, FileSystem, Handler, HttpMiddleware, LoggingMiddleware,
    PanicMiddleware, StaticFilesMiddleware, StatisticMiddleware,
};

struct TestHandler(fn(&mut HttpRequest, &HttpContext) -> Result<HttpResponse, HandlerFault>);

impl Handler for TestHandler {
    fn handle(
        &self,
        req: &mut HttpRequest,
        ctx: &HttpContext,
    ) -> Result<HttpResponse, HandlerFault> {
        (self.0)(req, ctx)
    }
}

struct NoFs;

impl FileSystem for NoFs {
    fn read(&mut self, _path: &str) -> Option<Vec<u8>> {
        None
    }

    fn write(&mut self, _path: &str, _data: &[u8]) -> bool {
        false
    }
}

struct MemFs {
    files: Vec<(String, Vec<u8>)>,
}

impl FileSystem for MemFs {
    fn read(&mut self, path: &str) -> Option<Vec<u8>> {
        for (p, c) in &self.files {
            if p == path {
                return Some(c.clone());
            }
        }
        None
    }

    fn write(&mut self, path: &str, data: &[u8]) -> bool {
        self.files.push((path.to_string(), data.to_vec()));
        true
    }
}

fn expect_response(action: ConnectionAction) -> (Vec<u8>, bool) {
    match action {
        ConnectionAction::Respond { bytes, close, .. } => (bytes, close),
        ConnectionAction::Drop => panic!("connection dropped"),
        ConnectionAction::Abort => panic!("worker aborted"),
    }
}

fn split_wire(bytes: &[u8]) -> (String, Vec<u8>) {
    let pos = bytes.windows(4).position(|w| w == b"\r\n\r\n").unwrap() + 4;
    (
        String::from_utf8(bytes[..pos].to_vec()).unwrap(),
        bytes[pos..].to_vec(),
    )
}

fn echo_server() -> HttpServer<TestHandler> {
    let mut server: HttpServer<TestHandler> = HttpServer::new();
    server
        .add_route(
            HttpMethod::GET,
            "/echo/{message}",
            TestHandler(|_req, ctx| {
                let message = match ctx.get_path_param("message") {
                    Some(m) => m.clone(),
                    None => String::new(),
                };
                Ok(HttpResponse::new(HttpStatusCode::OK).with_body(message.as_str()))
            }),
        )
        .unwrap();
    server
        .add_route(
            HttpMethod::GET,
            "/hello",
            TestHandler(|_req, _ctx| {
                Ok(HttpResponse::new(HttpStatusCode::OK).with_body("Hello, World!"))
            }),
        )
        .unwrap();
    server
        .add_route(
            HttpMethod::GET,
            "/panic",
            TestHandler(|_req, _ctx| Err(HandlerFault)),
        )
        .unwrap();
    server
}

#[test]
fn echo_route_returns_captured_parameter() {
    let mut server = echo_server();
    let mut fs = NoFs;
    let action = server.process_request("GET /echo/hi HTTP/1.1\r\n\r\n", "", &mut fs);
    let (bytes, close) = expect_response(action);
    let (head, body) = split_wire(&bytes);
    assert!(head.starts_with("HTTP/1.1 200 OK\r\n"));
    assert_eq!(String::from_utf8(body).unwrap(), "hi");
    assert!(!close);
}

#[test]
fn unknown_route_is_not_found() {
    let mut server = echo_server();
    let mut fs = NoFs;
    let action = server.process_request("GET /nothing/here HTTP/1.1\r\n\r\n", "", &mut fs);
    let (bytes, _) = expect_response(action);
    let (head, body) = split_wire(&bytes);
    assert!(head.starts_with("HTTP/1.1 404 Not Found\r\n"));
    assert!(body.is_empty());
}

#[test]
fn malformed_head_drops_the_connection() {
    let mut server = echo_server();
    let mut fs = NoFs;
    let action = server.process_request("NONSENSE\r\n\r\n", "", &mut fs);
    assert!(matches!(action, ConnectionAction::Drop));
}

#[test]
fn uncaught_fault_aborts_the_worker() {
    let mut server = echo_server();
    let mut fs = NoFs;
    let action = server.process_request("GET /panic HTTP/1.1\r\n\r\n", "", &mut fs);
    assert!(matches!(action, ConnectionAction::Abort));
}

#[test]
fn fault_isolation_yields_500_and_keeps_the_connection_usable() {
    let mut server = echo_server();
    server.use_middleware(HttpMiddleware::Panic(PanicMiddleware::new()));
    let mut fs = NoFs;

    let action = server.process_request("GET /panic HTTP/1.1\r\n\r\n", "", &mut fs);
    let (bytes, close) = expect_response(action);
    let (head, body) = split_wire(&bytes);
    assert!(head.starts_with("HTTP/1.1 500 Internal Server Error\r\n"));
    assert_eq!(String::from_utf8(body).unwrap(), "Internal Server Error");
    assert!(!close);

    let action2 = server.process_request("GET /echo/next HTTP/1.1\r\n\r\n", "", &mut fs);
    let (bytes2, _) = expect_response(action2);
    let (head2, body2) = split_wire(&bytes2);
    assert!(head2.starts_with("HTTP/1.1 200 OK\r\n"));
    assert_eq!(String::from_utf8(body2).unwrap(), "next");
}

#[test]
fn gzip_response_round_trips() {
    let mut server = echo_server();
    server.use_middleware(HttpMiddleware::Encoding(EncodingMiddleware::new()));
    let mut fs = NoFs;
    let action = server.process_request(
        "GET /hello HTTP/1.1\r\nAccept-Encoding: deflate, gzip\r\n\r\n",
        "",
        &mut fs,
    );
    let (bytes, _) = expect_response(action);
    let (head, body) = split_wire(&bytes);
    assert!(head.starts_with("HTTP/1.1 200 OK\r\n"));
    assert!(head.contains("Content-Encoding: gzip\r\n"));
    assert!(head.contains(&format!("Content-Length: {}\r\n", body.len())));
    assert_ne!(body.as_slice(), b"Hello, World!");
    let mut decoder = flate2::read::GzDecoder::new(body.as_slice());
    let mut decompressed = String::new();
    decoder.read_to_string(&mut decompressed).unwrap();
    assert_eq!(decompressed, "Hello, World!");
}

#[test]
fn gzip_is_skipped_without_the_token() {
    let mut server = echo_server();
    server.use_middleware(HttpMiddleware::Encoding(EncodingMiddleware::new()));
    let mut fs = NoFs;
    let action = server.process_request(
        "GET /hello HTTP/1.1\r\nAccept-Encoding: deflate, br\r\n\r\n",
        "",
        &mut fs,
    );
    let (bytes, _) = expect_response(action);
    let (head, body) = split_wire(&bytes);
    assert!(!head.contains("Content-Encoding"));
    assert_eq!(String::from_utf8(body).unwrap(), "Hello, World!");
}

#[test]
fn statistics_count_requests_and_statuses() {
    let mut server = echo_server();
    server.use_middleware(HttpMiddleware::Statistic(StatisticMiddleware::new("/stats")));
    let mut fs = NoFs;
    for _ in 0..3 {
        let action = server.process_request("GET /hello HTTP/1.1\r\n\r\n", "", &mut fs);
        expect_response(action);
    }
    let action = server.process_request("GET /nothing HTTP/1.1\r\n\r\n", "", &mut fs);
    expect_response(action);

    let action = server.process_request("GET /stats HTTP/1.1\r\n\r\n", "", &mut fs);
    let (bytes, _) = expect_response(action);
    let (head, body) = split_wire(&bytes);
    assert!(head.starts_with("HTTP/1.1 200 OK\r\n"));
    let text = String::from_utf8(body).unwrap();
    assert!(text.starts_with("Total Requests: 4\n"));
    assert!(text.contains("\"GET /hello\": 3"));
    assert!(text.contains("\"GET /nothing\": 1"));
    assert!(text.contains("200: 3"));
    assert!(text.contains("404: 1"));
}

#[test]
fn statistics_total_is_monotone_across_reports() {
    let mut server = echo_server();
    server.use_middleware(HttpMiddleware::Statistic(StatisticMiddleware::new("/stats")));
    let mut fs = NoFs;
    let mut last_total: u64 = 0;
    for round in 0..4u64 {
        let action = server.process_request("GET /hello HTTP/1.1\r\n\r\n", "", &mut fs);
        expect_response(action);
        let action = server.process_request("GET /stats HTTP/1.1\r\n\r\n", "", &mut fs);
        let (bytes, _) = expect_response(action);
        let (_, body) = split_wire(&bytes);
        let text = String::from_utf8(body).unwrap();
        let line = text.lines().next().unwrap();
        let total: u64 = line.trim_start_matches("Total Requests: ").parse().unwrap();
        assert!(total >= last_total);
        assert_eq!(total, round + 1);
        last_total = total;
    }
}

#[test]
fn dummy_middleware_short_circuits_everything() {
    let mut server = echo_server();
    server.use_middleware(HttpMiddleware::Dummy(DummyMiddleware::new()));
    let mut fs = NoFs;
    let action = server.process_request("GET /hello HTTP/1.1\r\n\r\n", "", &mut fs);
    let (bytes, _) = expect_response(action);
    let (head, _) = split_wire(&bytes);
    assert!(head.starts_with("HTTP/1.1 404 Not Found\r\n"));
}

#[test]
fn logging_middleware_passes_requests_through() {
    let logger = LoggingMiddleware::new();
    let req = HttpRequest::parse("GET /watched HTTP/1.1\r\n\r\n", "").unwrap();
    assert_eq!(
        logger.request_log_line(&req).as_str(),
        "Received request: GET /watched"
    );
    let resp = HttpResponse::new(HttpStatusCode::NotFound);
    assert_eq!(
        logger.response_log_line(&resp).as_str(),
        "Responding with status: Not Found"
    );

    let mut server = echo_server();
    server.use_middleware(HttpMiddleware::Logging(LoggingMiddleware::new()));
    let mut fs = NoFs;
    let action = server.process_request("GET /echo/logged HTTP/1.1\r\n\r\n", "", &mut fs);
    let (bytes, _) = expect_response(action);
    let (_, body) = split_wire(&bytes);
    assert_eq!(String::from_utf8(body).unwrap(), "logged");
}

#[test]
fn static_files_serve_and_store() {
    let mut server = echo_server();
    server.use_middleware(HttpMiddleware::StaticFiles(
        StaticFilesMiddleware::new("/files", "/data").unwrap(),
    ));
    let mut fs = MemFs { files: vec![("/data/hello.txt".to_string(), b"file payload".to_vec())] };

    let action = server.process_request("GET /files/hello.txt HTTP/1.1\r\n\r\n", "", &mut fs);
    let (bytes, _) = expect_response(action);
    let (head, body) = split_wire(&bytes);
    assert!(head.starts_with("HTTP/1.1 200 OK\r\n"));
    assert!(head.contains("Content-Type: application/octet-stream\r\n"));
    assert_eq!(String::from_utf8(body).unwrap(), "file payload");

    let action = server.process_request(
        "POST /files/sub/new.txt HTTP/1.1\r\n\r\n",
        "stored body",
        &mut fs,
    );
    let (bytes, _) = expect_response(action);
    let (head, _) = split_wire(&bytes);
    assert!(head.starts_with("HTTP/1.1 201 Created\r\n"));
    assert_eq!(
        fs.files.last().unwrap(),
        &("/data/sub/new.txt".to_string(), b"stored body".to_vec())
    );

    let action = server.process_request("GET /files/absent.txt HTTP/1.1\r\n\r\n", "", &mut fs);
    let (bytes, _) = expect_response(action);
    let (head, _) = split_wire(&bytes);
    assert!(head.starts_with("HTTP/1.1 404 Not Found\r\n"));
}

#[test]
fn keep_alive_follows_version_and_connection_header() {
    let mut server = echo_server();
    let mut fs = NoFs;

    let action = server.process_request("GET /hello HTTP/1.0\r\n\r\n", "", &mut fs);
    let (bytes, close) = expect_response(action);
    assert!(close);
    let (head, _) = split_wire(&bytes);
    assert!(head.contains("Connection: close\r\n"));

    let action = server.process_request(
        "GET /hello HTTP/1.1\r\nConnection: close\r\n\r\n",
        "",
        &mut fs,
    );
    let (bytes2, close2) = expect_response(action);
    assert!(close2);
    let (head2, _) = split_wire(&bytes2);
    assert!(head2.contains("Connection: close\r\n"));

    let action = server.process_request("GET /hello HTTP/1.1\r\n\r\n", "", &mut fs);
    let (bytes3, close3) = expect_response(action);
    assert!(!close3);
    let (head3, _) = split_wire(&bytes3);
    assert!(!head3.contains("Connection: close\r\n"));
}

#[test]
fn lossy_decoding_replaces_invalid_bytes() {
    let enc = EncodingMiddleware::new();
    let bytes: Vec<u8> = vec![104u8, 255u8, 105u8];
    let decoded = enc.decode(bytes.as_slice());
    assert_eq!(decoded.as_str(), "h\u{FFFD}i");
    let encoded = enc.encode("hi");
    assert_eq!(encoded.as_slice(), b"hi");
    let round = enc.decode(enc.encode("plain text").as_slice());
    assert_eq!(round.as_str(), "plain text");
}
