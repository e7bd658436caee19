use cast::media_server::{
    is_expected_client_disconnect, parse_request, resolve_range, respond, FailureCause,
    FileTransfer, IoErrorKind, MediaServerCounters, RangeError, RequestError, RequestReader,
    ResolvedRange, ServeError, ServedFile, TRANSFER_BUFFER_BYTES,
};

const CONTENT: &[u8] = b"0123456789abcdefghijklmnopqrstuvwxyz";

struct TestServer {
    content: Vec<u8>,
    file: ServedFile,
    counters: MediaServerCounters,
}

impl TestServer {
    fn serving(content: &[u8], route: &str) -> Self {
        TestServer {
            content: content.to_vec(),
            file: ServedFile::new(
                content.len() as u64,
                "video/mp4".to_owned(),
                route.to_owned(),
            )
            .unwrap(),
            counters: MediaServerCounters::new(),
        }
    }

    fn start() -> Self {
        TestServer::serving(CONTENT, "test-route")
    }

    fn request(&mut self, request: &str) -> Vec<u8> {
        self.counters.count_request();
        self.answer(request)
    }

    fn answer(&mut self, request: &str) -> Vec<u8> {
        let mut reader = RequestReader::new();
        let mut sent = request.as_bytes();
        let parsed = loop {
            let size = match reader.next_read() {
                Ok(size) => size.min(sent.len()),
                Err(error) => break Err(error),
            };
            let (chunk, rest) = sent.split_at(size);
            sent = rest;
            match reader.feed(chunk) {
                Ok(true) => break reader.request(),
                Ok(false) => {}
                Err(error) => break Err(error),
            }
        };
        let response = respond(&self.file, parsed, &mut self.counters);
        let mut output = response.head.into_bytes();
        self.counters.count_response(response.served);
        if let Some((start, length)) = response.body {
            let mut transfer = FileTransfer::new(start, length);
            while transfer.next_read() > 0 {
                let size = transfer.next_read();
                let offset = transfer.offset as usize;
                output.extend_from_slice(&self.content[offset..offset + size]);
                transfer.sent(size, &mut self.counters).unwrap();
            }
        }
        output
    }
}

fn response_parts(response: &[u8]) -> (&str, &[u8]) {
    let boundary = response.windows(4).position(|window| window == b"\r\n\r\n").unwrap();
    (std::str::from_utf8(&response[..boundary]).unwrap(), &response[boundary + 4..])
}

#[test]
fn resolves_supported_ranges() {
    assert_eq!(resolve_range(None, 10), Ok(ResolvedRange::Full));
    assert_eq!(
        resolve_range(Some("bytes=2-5"), 10),
        Ok(ResolvedRange::Partial { start: 2, end: 5 })
    );
    assert_eq!(
        resolve_range(Some("Bytes=2-5"), 10),
        Ok(ResolvedRange::Partial { start: 2, end: 5 })
    );
    assert_eq!(
        resolve_range(Some("bytes=7-"), 10),
        Ok(ResolvedRange::Partial { start: 7, end: 9 })
    );
    assert_eq!(
        resolve_range(Some("bytes=-3"), 10),
        Ok(ResolvedRange::Partial { start: 7, end: 9 })
    );
    assert_eq!(
        resolve_range(Some("bytes=-30"), 10),
        Ok(ResolvedRange::Partial { start: 0, end: 9 })
    );
    assert_eq!(
        resolve_range(Some("bytes=2-30"), 10),
        Ok(ResolvedRange::Partial { start: 2, end: 9 })
    );
}

#[test]
fn rejects_malformed_and_unsatisfiable_ranges() {
    assert_eq!(
        resolve_range(Some("items=0-1"), 10),
        Err(RangeError::Malformed("only byte ranges are supported"))
    );
    assert_eq!(
        resolve_range(Some("bytes=x-1"), 10),
        Err(RangeError::Malformed("byte range contains a non-number"))
    );
    assert_eq!(resolve_range(Some("bytes=10-"), 10), Err(RangeError::Unsatisfiable));
    assert_eq!(resolve_range(Some("bytes=5-2"), 10), Err(RangeError::Unsatisfiable));
    assert_eq!(resolve_range(Some("bytes=0-0"), 0), Err(RangeError::Unsatisfiable));
    assert_eq!(resolve_range(Some("bytes=-0"), 10), Err(RangeError::Unsatisfiable));
}

#[test]
fn classifies_receiver_disconnects_without_hiding_server_failures() {
    for kind in
        [IoErrorKind::BrokenPipe, IoErrorKind::ConnectionAborted, IoErrorKind::ConnectionReset]
    {
        assert!(is_expected_client_disconnect(&[FailureCause::Io(kind)]));
    }
    assert!(!is_expected_client_disconnect(&[FailureCause::Io(IoErrorKind::TimedOut)]));
}

#[test]
fn serves_full_get_and_head_with_cors_and_ranges() {
    let mut test = TestServer::start();
    let response = test.request("GET /test-route/media HTTP/1.1\r\nHost: localhost\r\n\r\n");
    let (headers, body) = response_parts(&response);
    assert!(headers.starts_with("HTTP/1.1 200 OK"), "unexpected response headers: {headers}");
    assert!(headers.contains("Content-Type: video/mp4"));
    assert!(headers.contains(&format!("Content-Length: {}", CONTENT.len())));
    assert!(headers.contains("Accept-Ranges: bytes"));
    assert!(headers.contains("Access-Control-Allow-Origin: *"));
    assert_eq!(body, CONTENT);

    let response = test.request("HEAD /test-route/media HTTP/1.1\r\nHost: localhost\r\n\r\n");
    let (headers, body) = response_parts(&response);
    assert!(headers.starts_with("HTTP/1.1 200 OK"));
    assert!(headers.contains(&format!("Content-Length: {}", CONTENT.len())));
    assert!(body.is_empty());
}

#[test]
fn waits_for_request_headers_after_accepting_a_connection() {
    let mut test = TestServer::start();
    test.counters.count_request();
    assert_eq!(test.counters.snapshot().requests, 1);

    let mut reader = RequestReader::new();
    assert_eq!(reader.feed(b"GET /test-route/media HTTP/1.1\r\n"), Ok(false));
    assert_eq!(reader.feed(b"Host: localhost\r\n\r\n"), Ok(true));
    let response = test.answer("GET /test-route/media HTTP/1.1\r\nHost: localhost\r\n\r\n");

    let (headers, body) = response_parts(&response);
    assert!(headers.starts_with("HTTP/1.1 200 OK"));
    assert_eq!(body, CONTENT);
}

#[test]
fn serves_closed_open_and_suffix_ranges() {
    let mut test = TestServer::start();
    for (range, expected, content_range) in [
        ("bytes=2-5", b"2345".as_slice(), "bytes 2-5/36"),
        ("bytes=33-", b"xyz".as_slice(), "bytes 33-35/36"),
        ("bytes=-3", b"xyz".as_slice(), "bytes 33-35/36"),
    ] {
        let response = test.request(&format!(
            "GET /test-route/media HTTP/1.1\r\nHost: localhost\r\nRange: {range}\r\n\r\n"
        ));
        let (headers, body) = response_parts(&response);
        assert!(headers.starts_with("HTTP/1.1 206 Partial Content"));
        assert!(headers.contains(&format!("Content-Range: {content_range}")));
        assert_eq!(body, expected);
    }
}

#[test]
fn returns_416_for_an_unsatisfiable_range() {
    let mut test = TestServer::start();
    let response = test.request(
        "GET /test-route/media HTTP/1.1\r\nHost: localhost\r\nRange: bytes=99-\r\n\r\n",
    );
    let (headers, body) = response_parts(&response);
    assert!(headers.starts_with("HTTP/1.1 416 Range Not Satisfiable"));
    assert!(headers.contains("Content-Range: bytes */36"));
    assert!(body.is_empty());
}

#[test]
fn ignores_multipart_ranges_with_a_full_response() {
    let mut test = TestServer::start();
    let response = test.request(
        "GET /test-route/media HTTP/1.1\r\nHost: localhost\r\nRange: bytes=0-1,4-5\r\n\r\n",
    );
    let (headers, body) = response_parts(&response);
    assert!(headers.starts_with("HTTP/1.1 200 OK"));
    assert_eq!(body, CONTENT);
}

#[test]
fn isolates_the_private_route_and_rejects_unsupported_methods() {
    let mut test = TestServer::start();
    let response = test.request("GET /other/media HTTP/1.1\r\nHost: localhost\r\n\r\n");
    assert!(response_parts(&response).0.starts_with("HTTP/1.1 404"));
    assert!(!test.counters.received_request());

    let response = test.request("POST /test-route/media HTTP/1.1\r\nHost: localhost\r\n\r\n");
    let (headers, body) = response_parts(&response);
    assert!(headers.starts_with("HTTP/1.1 405 Method Not Allowed"));
    assert!(headers.contains("Allow: GET, HEAD, OPTIONS"));
    assert!(body.is_empty());
    assert!(!test.counters.received_request());
}

#[test]
fn answers_cors_preflight_without_exposing_file_bytes() {
    let mut test = TestServer::start();
    let response = test.request(
        "OPTIONS /test-route/media HTTP/1.1\r\nHost: localhost\r\nAccess-Control-Request-Method: GET\r\nAccess-Control-Request-Headers: Range\r\n\r\n",
    );
    let (headers, body) = response_parts(&response);
    assert!(headers.starts_with("HTTP/1.1 204 No Content"));
    assert!(headers.contains("Access-Control-Allow-Origin: *"));
    assert!(headers.contains("Access-Control-Allow-Headers: Range"));
    assert!(body.is_empty());
    assert!(!test.counters.received_request());
}

#[test]
fn serves_simultaneous_ranges_without_shared_cursor_races() {
    let mut counters = MediaServerCounters::new();
    let mut first = FileTransfer::new(0, 10);
    let mut second = FileTransfer::new(26, 10);
    let mut bodies = [Vec::new(), Vec::new()];
    while first.next_read() > 0 || second.next_read() > 0 {
        for (transfer, body) in [&mut first, &mut second].into_iter().zip(&mut bodies) {
            let offset = transfer.offset as usize;
            body.push(CONTENT[offset]);
            transfer.sent(1, &mut counters).unwrap();
        }
    }
    assert_eq!(bodies[0], b"0123456789");
    assert_eq!(bodies[1], b"qrstuvwxyz");

    let mut test = TestServer::start();
    let one = test.request("GET /test-route/media HTTP/1.1\r\nRange: bytes=0-9\r\n\r\n");
    let other = test.request("GET /test-route/media HTTP/1.1\r\nRange: bytes=26-35\r\n\r\n");
    assert_eq!(response_parts(&one).1, b"0123456789");
    assert_eq!(response_parts(&other).1, b"qrstuvwxyz");
}

#[test]
fn streams_files_larger_than_the_transfer_buffer() {
    let content =
        (0..TRANSFER_BUFFER_BYTES * 3 + 17).map(|index| (index % 251) as u8).collect::<Vec<_>>();
    let mut test = TestServer::serving(&content, "large-route");
    let response = test.request("GET /large-route/media HTTP/1.1\r\nHost: localhost\r\n\r\n");
    assert_eq!(response_parts(&response).1, content);
    assert_eq!(test.counters.snapshot().bytes_sent, content.len() as u64);
}

#[test]
fn reports_server_stats() {
    let mut test = TestServer::start();
    test.request("GET /test-route/media HTTP/1.1\r\nHost: localhost\r\n\r\n");
    test.request("HEAD /test-route/media HTTP/1.1\r\nHost: localhost\r\nRange: bytes=0-3\r\n\r\n");
    let stats = test.counters.snapshot();
    assert_eq!(stats.requests, 2);
    assert_eq!(stats.full_responses, 1);
    assert_eq!(stats.range_responses, 1);
    assert_eq!(stats.bytes_sent, CONTENT.len() as u64);
    assert_eq!(stats.failures, 0);
    assert!(test.counters.received_request());
    assert!(test.file.path.ends_with("/test-route/media"));
}

#[test]
fn broken_requests_are_told_apart() {
    assert_eq!(parse_request(&[0xff, 0xfe]).err(), Some(RequestError::NotUtf8));
    assert_eq!(parse_request(b"\r\n\r\n").err(), Some(RequestError::MissingMethod));
    assert_eq!(parse_request(b"GET\r\n\r\n").err(), Some(RequestError::MissingTarget));
    assert_eq!(parse_request(b"GET /\r\n\r\n").err(), Some(RequestError::MissingVersion));
    assert_eq!(
        parse_request(b"GET / HTTP/1.1 x\r\n\r\n").err(),
        Some(RequestError::MalformedRequestLine)
    );
    assert_eq!(
        parse_request(b"GET / HTTP/1.1\r\nnothing\r\n\r\n").err(),
        Some(RequestError::MalformedHeader)
    );
    assert_eq!(
        parse_request(b"GET / HTTP/1.1\r\nRange: bytes=0-\r\nrange: bytes=1-\r\n\r\n").err(),
        Some(RequestError::MultipleRanges)
    );
    let mut reader = RequestReader::new();
    assert_eq!(reader.feed(&[]), Err(RequestError::ClosedEarly));
    let mut test = TestServer::start();
    let long = "x".repeat(20_000);
    assert!(test.request(&long).starts_with(b"HTTP/1.1 400 Bad Request"));
    for _ in 0..16 {
        reader.feed(&[b'x'; 1024]).unwrap();
    }
    assert_eq!(reader.next_read(), Err(RequestError::HeadersTooLong));
}

#[test]
fn served_files_have_plain_headers() {
    let refused =
        ServedFile::new(1, "video/mp4\r\nX: y".to_owned(), "route".to_owned()).err().unwrap();
    assert_eq!(refused, ServeError::InvalidContentType);
    let refused = ServedFile::new(1, "video/mp4".to_owned(), "a/b".to_owned()).err().unwrap();
    assert_eq!(refused, ServeError::InvalidRoute);
}

#[test]
fn files_that_end_early_are_failures() {
    let mut counters = MediaServerCounters::new();
    let mut transfer = FileTransfer::new(0, 5);
    assert!(transfer.sent(0, &mut counters).is_err());
    counters.count_failure();
    assert_eq!(counters.snapshot().failures, 1);
}
