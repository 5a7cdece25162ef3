use hypershare::connection::{
    build_get_response, Dispatch, GetTarget, HttpConnection, PostStep, ReadOutcome, ServerFlags,
    REQUEST_BUFFER_SIZE,
};
use hypershare::engine::get_and_check_canon_path;
use hypershare::http_core::{status_to_code, HttpMethod, HttpRequest, HttpStatus};
use hypershare::post_buffer::{PostAction, PostBuffer};
use hypershare::response::{HttpResponse, ResponseDataType};

const HELLO: &[u8] = b"Hello, world!\n";

fn flags() -> ServerFlags {
    ServerFlags { dir_listings: true, disabled: false, uploading: true }
}

fn header(resp: &HttpResponse, name: &str) -> Option<String> {
    resp.headers
        .iter()
        .find(|h| h.key == name.as_bytes())
        .map(|h| String::from_utf8(h.value.clone()).unwrap())
}

fn header_names(resp: &HttpResponse) -> Vec<Vec<u8>> {
    resp.headers.iter().map(|h| h.key.clone()).collect()
}

/// Feeds a request head to a fresh connection and dispatches it.
fn dispatch(raw: &[u8], f: &ServerFlags) -> (HttpConnection, Dispatch) {
    let mut conn = HttpConnection::new();
    match conn.read_partial_request(raw) {
        ReadOutcome::HeadComplete => {}
        _ => panic!("head not complete"),
    }
    let d = conn.dispatch(f);
    (conn, d)
}

/// Serves `content` as a file for a GET or HEAD, and returns the
/// connection and the body bytes the peer receives.
fn serve_file(raw: &[u8], content: &[u8]) -> (HttpConnection, Vec<u8>) {
    let (mut conn, d) = dispatch(raw, &flags());
    let req = match d {
        Dispatch::Get(req) => req,
        _ => panic!("not a GET"),
    };
    let mut head = Vec::new();
    conn.finish_get(&req, GetTarget::File(content.len()), &mut head);
    let body = drain_body(&mut conn, content);
    (conn, body)
}

/// Plays the part of the socket: sends body chunks until the response ends.
fn drain_body(conn: &mut HttpConnection, file: &[u8]) -> Vec<u8> {
    let mut out = Vec::new();
    let mut file_pos = conn.response.as_ref().unwrap().body_offset;
    loop {
        let resp = conn.response.as_mut().unwrap();
        let chunk: Vec<u8> = match resp.data {
            ResponseDataType::String(_) => resp.next_chunk(),
            ResponseDataType::File => {
                let n = resp.chunk_size().min(file.len() - file_pos);
                let c = file[file_pos..file_pos + n].to_vec();
                file_pos += n;
                c
            }
            ResponseDataType::Empty => Vec::new(),
        };
        out.extend_from_slice(&chunk);
        let state = conn.write_partial_response(chunk.len(), chunk.len());
        if state != hypershare::connection::ConnectionState::WritingResponse {
            return out;
        }
    }
}

#[test]
fn serve_a_text_file() {
    let (_, body) = serve_file(b"GET /hello.txt HTTP/1.1\r\n\r\n", HELLO);
    assert_eq!(body, HELLO);
    let req = HttpRequest::new(b"GET /hello.txt HTTP/1.1\r\n\r\n").ok().unwrap();
    let (resp, n) = build_get_response(&req, GetTarget::File(14), false).ok().unwrap();
    assert_eq!(status_to_code(&resp.status), 200);
    assert_eq!(n, 14);
    assert_eq!(header(&resp, "Content-Length").unwrap(), "14");
    assert_eq!(header(&resp, "Accept-Ranges").unwrap(), "bytes");
    assert!(header(&resp, "Content-Type").is_none());
}

#[test]
fn range_request() {
    let raw = b"GET /hello.txt HTTP/1.1\r\nRange: bytes=7-11\r\n\r\n";
    let (_, body) = serve_file(raw, HELLO);
    assert_eq!(body, b"world");
    let req = HttpRequest::new(raw).ok().unwrap();
    let (resp, n) = build_get_response(&req, GetTarget::File(14), false).ok().unwrap();
    assert_eq!(status_to_code(&resp.status), 206);
    assert_eq!(n, 5);
    assert_eq!(header(&resp, "Content-Range").unwrap(), "bytes 7-11/14");
    assert_eq!(header(&resp, "Content-Length").unwrap(), "5");
}

#[test]
fn head_request() {
    let (conn, body) = serve_file(b"HEAD /hello.txt HTTP/1.1\r\n\r\n", HELLO);
    assert!(body.is_empty());
    assert_eq!(conn.state, hypershare::connection::ConnectionState::Closing);
    let (mut conn, d) = dispatch(b"HEAD /hello.txt HTTP/1.1\r\n\r\n", &flags());
    let req = match d {
        Dispatch::Get(req) => req,
        _ => panic!("not a GET"),
    };
    assert!(req.method == Some(HttpMethod::HEAD));
    let mut head = Vec::new();
    conn.finish_get(&req, GetTarget::File(14), &mut head);
    let resp = conn.response.as_ref().unwrap();
    assert_eq!(status_to_code(&resp.status), 200);
    assert_eq!(header(resp, "Content-Length").unwrap(), "14");
    assert!(matches!(resp.data, ResponseDataType::Empty));
    let text = String::from_utf8(head).unwrap();
    assert!(text.starts_with("HTTP/1.1 200 OK\r\n"));
    assert!(text.contains("Content-Length: 14\r\n"));
    assert!(text.ends_with("\r\n\r\n"));
}

#[test]
fn head_and_get_have_the_same_headers() {
    let get = HttpRequest::new(b"GET /a.html HTTP/1.1\r\nRange: bytes=2-\r\n\r\n").ok().unwrap();
    let head = HttpRequest::new(b"HEAD /a.html HTTP/1.1\r\nRange: bytes=2-\r\n\r\n").ok().unwrap();
    let (g, gn) = build_get_response(&get, GetTarget::File(100), true).ok().unwrap();
    let (h, hn) = build_get_response(&head, GetTarget::File(100), true).ok().unwrap();
    assert_eq!(gn, hn);
    assert!(g.status == h.status);
    assert_eq!(header_names(&g), header_names(&h));
    for name in ["Content-Length", "Content-Range", "Content-Type", "Connection"] {
        assert_eq!(header(&g, name), header(&h, name));
    }
}

#[test]
fn traversal_rejected() {
    let root = b"/srv/share";
    assert!(matches!(
        hypershare::engine::check_target(
            root,
            b"/etc/passwd",
            Ok(hypershare::engine::EntryKind::File),
            true
        ),
        Err(HttpStatus::NotFound)
    ));
    assert!(get_and_check_canon_path(root, b"/etc/passwd").is_none());
    assert!(get_and_check_canon_path(root, b"/srv/shared/x").is_none());
    assert_eq!(get_and_check_canon_path(root, b"/srv/share/x").unwrap(), b"/srv/share/x".to_vec());
    let (mut conn, d) = dispatch(b"GET /../etc/passwd HTTP/1.1\r\n\r\n", &flags());
    assert!(matches!(d, Dispatch::Get(_)));
    let mut head = Vec::new();
    conn.create_oneoff_response(HttpStatus::NotFound, Some(b"Path disallowed.".to_vec()), &mut head);
    assert!(String::from_utf8(head).unwrap().starts_with("HTTP/1.1 404 Not found\r\n"));
}

#[test]
fn method_not_implemented() {
    let (conn, d) = dispatch(b"PUT /x HTTP/1.1\r\n\r\n", &flags());
    assert!(matches!(d, Dispatch::Respond(_)));
    assert_eq!(status_to_code(&conn.response.as_ref().unwrap().status), 501);
}

/// Runs an upload through a connection, keeping created files in memory.
fn run_upload(
    head: &[u8],
    chunks: &[&[u8]],
    existing: &[&str],
) -> (Vec<(Vec<u8>, Vec<u8>)>, HttpConnection) {
    run_upload_limited(head, chunks, existing, 0)
}

fn run_upload_limited(
    head: &[u8],
    chunks: &[&[u8]],
    existing: &[&str],
    limit: usize,
) -> (Vec<(Vec<u8>, Vec<u8>)>, HttpConnection) {
    let mut conn = HttpConnection::new();
    assert!(matches!(conn.read_partial_request(head), ReadOutcome::HeadComplete));
    let boundary = match conn.dispatch(&flags()) {
        Dispatch::Post(_, b) => b,
        _ => panic!("not an upload"),
    };
    let mut files: Vec<(Vec<u8>, Vec<u8>)> = Vec::new();
    let mut step = conn.start_upload(&boundary, limit);
    let mut next_chunk = 0;
    loop {
        step = match step {
            PostStep::Respond(_) => return (files, conn),
            PostStep::Reading => {
                if next_chunk == chunks.len() {
                    conn.read_partial_post_body(b"")
                } else {
                    next_chunk += 1;
                    conn.read_partial_post_body(chunks[next_chunk - 1])
                }
            }
            PostStep::Act(PostAction::Open(name)) => {
                let taken = existing.iter().any(|e| e.as_bytes() == &name[..])
                    || files.iter().any(|f| f.0 == name);
                if !taken {
                    files.push((name, Vec::new()));
                }
                conn.post_file_opened(!taken)
            }
            PostStep::Act(PostAction::Write(from, to)) => {
                let pb = conn.post_buffer.as_ref().unwrap();
                let data = pb.buffer[from..to].to_vec();
                files.last_mut().unwrap().1.extend_from_slice(&data);
                conn.post_wrote(Some(data.len()))
            }
            PostStep::Act(a) => panic!("unexpected action {:?}", a),
        };
    }
}

const UPLOAD_HEAD: &[u8] =
    b"POST / HTTP/1.1\r\nContent-Type: multipart/form-data; boundary=ABC\r\n\r\n";

fn upload_body(name: &str, content: &[u8]) -> Vec<u8> {
    let mut b = Vec::new();
    b.extend_from_slice(b"--ABC\r\nContent-Disposition: form-data; name=\"data\"; filename=\"");
    b.extend_from_slice(name.as_bytes());
    b.extend_from_slice(b"\"\r\n\r\n");
    b.extend_from_slice(content);
    b.extend_from_slice(b"\r\n--ABC--\r\n");
    b
}

#[test]
fn multipart_upload_succeeds() {
    let content: Vec<u8> = (0..3000u32).map(|i| (i * 7 % 256) as u8).collect();
    let body = upload_body("out.bin", &content);
    let (files, conn) = run_upload(UPLOAD_HEAD, &[&body], &[]);
    assert_eq!(files.len(), 1);
    assert_eq!(files[0].0, b"out.bin".to_vec());
    assert_eq!(files[0].1, content);
    assert_eq!(status_to_code(&conn.response.as_ref().unwrap().status), 201);
}

#[test]
fn boundary_straddling_reads() {
    let content: Vec<u8> = b"0123456789--AB\r\n--AB not yet".to_vec();
    let body = upload_body("split.bin", &content);
    for cut in 1..body.len() {
        let (files, conn) = run_upload(UPLOAD_HEAD, &[&body[..cut], &body[cut..]], &[]);
        assert_eq!(files[0].1, content, "cut at {}", cut);
        assert_eq!(status_to_code(&conn.response.as_ref().unwrap().status), 201);
    }
}

#[test]
fn upload_with_slash_in_filename_rejected() {
    let body = upload_body("../evil", b"x");
    let (files, conn) = run_upload(UPLOAD_HEAD, &[&body], &[]);
    assert!(files.is_empty());
    assert_eq!(status_to_code(&conn.response.as_ref().unwrap().status), 500);
    assert!(!conn.keep_alive);
}

#[test]
fn upload_onto_existing_file_rejected() {
    let body = upload_body("taken.txt", b"data");
    let (files, conn) = run_upload(UPLOAD_HEAD, &[&body], &["taken.txt"]);
    assert!(files.is_empty());
    assert_eq!(status_to_code(&conn.response.as_ref().unwrap().status), 500);
}

#[test]
fn upload_round_trip_of_all_byte_values() {
    let content: Vec<u8> = (0..=255u8).chain(0..=255u8).collect();
    let body = upload_body("all.bin", &content);
    let chunks: Vec<&[u8]> = body.chunks(37).collect();
    let (files, _) = run_upload(UPLOAD_HEAD, &chunks, &[]);
    assert_eq!(files[0].1, content);
}

#[test]
fn upload_body_ending_early_is_a_bad_request() {
    let body = b"--ABC\r\nContent-Disposition: form-data; filename=\"a\"\r\n\r\nabc";
    let (_, conn) = run_upload(UPLOAD_HEAD, &[body], &[]);
    assert_eq!(status_to_code(&conn.response.as_ref().unwrap().status), 401);
}

#[test]
fn request_of_exactly_4096_bytes_accepted() {
    let mut raw = b"GET / HTTP/1.1\r\nX-Pad: ".to_vec();
    while raw.len() < REQUEST_BUFFER_SIZE - 4 {
        raw.push(b'a');
    }
    raw.extend_from_slice(b"\r\n\r\n");
    assert_eq!(raw.len(), 4096);
    let mut conn = HttpConnection::new();
    assert!(matches!(conn.read_partial_request(&raw), ReadOutcome::HeadComplete));
    assert!(matches!(conn.dispatch(&flags()), Dispatch::Get(_)));
}

#[test]
fn request_of_4096_bytes_without_terminator_too_large() {
    let raw = vec![b'a'; 4096];
    let mut conn = HttpConnection::new();
    match conn.read_partial_request(&raw[..1000]) {
        ReadOutcome::Incomplete => {}
        _ => panic!("expected more"),
    }
    match conn.read_partial_request(&raw[1000..]) {
        ReadOutcome::TooLarge(head) => {
            assert!(String::from_utf8(head).unwrap().starts_with("HTTP/1.1 431 "));
        }
        _ => panic!("expected too large"),
    }
    assert_eq!(status_to_code(&conn.response.as_ref().unwrap().status), 431);
}

#[test]
fn suffix_style_range_starts_at_zero() {
    let content = vec![1u8; 1000];
    let req = HttpRequest::new(b"GET /f HTTP/1.1\r\nRange: bytes=-500\r\n\r\n").ok().unwrap();
    let (resp, n) = build_get_response(&req, GetTarget::File(content.len()), false).ok().unwrap();
    assert_eq!(status_to_code(&resp.status), 206);
    assert_eq!(n, 501);
    assert_eq!(header(&resp, "Content-Range").unwrap(), "bytes 0-500/1000");
}

#[test]
fn open_range_from_zero_is_whole_file() {
    let raw = b"GET /hello.txt HTTP/1.1\r\nRange: bytes=0-\r\n\r\n";
    let (_, body) = serve_file(raw, HELLO);
    assert_eq!(body, HELLO);
    let req = HttpRequest::new(raw).ok().unwrap();
    let (resp, n) = build_get_response(&req, GetTarget::File(14), false).ok().unwrap();
    assert_eq!(status_to_code(&resp.status), 206);
    assert_eq!(n, 14);
    assert_eq!(header(&resp, "Content-Range").unwrap(), "bytes 0-13/14");
}

#[test]
fn malformed_range_is_bad_request() {
    for r in ["bytes=5-2", "bytes=0-0", "items=0-4", "bytes=a-4", "bytes=4"] {
        let raw = format!("GET /hello.txt HTTP/1.1\r\nRange: {}\r\n\r\n", r);
        let req = HttpRequest::new(raw.as_bytes()).ok().unwrap();
        assert!(matches!(
            build_get_response(&req, GetTarget::File(14), false),
            Err(HttpStatus::BadRequest)
        ));
        let (conn, _) = serve_file(raw.as_bytes(), HELLO);
        assert_eq!(conn.state, hypershare::connection::ConnectionState::Closing);
    }
}

#[test]
fn keep_alive_connection_is_reset_after_response() {
    let raw = b"GET /hello.txt HTTP/1.1\r\nConnection: keep-alive\r\n\r\n";
    let (conn, body) = serve_file(raw, HELLO);
    assert_eq!(body, HELLO);
    assert_eq!(conn.state, hypershare::connection::ConnectionState::ReadingRequest);
    assert!(conn.buffer.is_empty());
    assert!(conn.response.is_none());
    assert!(conn.post_buffer.is_none());
    assert_eq!(conn.bytes_sent, 14);
    assert_eq!(conn.bytes_requested, 14);
    assert_eq!(conn.num_requests, 1);
    assert!(conn.bytes_sent <= conn.bytes_requested);
}

#[test]
fn short_writes_are_retried() {
    let raw = b"GET /x HTTP/1.1\r\n\r\n";
    let (mut conn, d) = dispatch(raw, &flags());
    let req = match d {
        Dispatch::Get(r) => r,
        _ => panic!(),
    };
    let listing = b"<html>listing</html>".to_vec();
    let mut head = Vec::new();
    conn.finish_get(&req, GetTarget::Listing(listing.clone()), &mut head);
    let mut got = Vec::new();
    loop {
        let chunk = conn.response.as_mut().unwrap().next_chunk();
        let sent = chunk.len().min(3);
        got.extend_from_slice(&chunk[..sent]);
        let st = conn.write_partial_response(chunk.len(), sent);
        assert!(conn.bytes_sent <= conn.bytes_requested);
        if st != hypershare::connection::ConnectionState::WritingResponse {
            break;
        }
    }
    assert_eq!(got, listing);
}

#[test]
fn disabled_server_answers_unavailable() {
    let f = ServerFlags { dir_listings: true, disabled: true, uploading: false };
    let (conn, d) = dispatch(b"GET / HTTP/1.1\r\nConnection: keep-alive\r\n\r\n", &f);
    assert!(matches!(d, Dispatch::Respond(_)));
    assert_eq!(status_to_code(&conn.response.as_ref().unwrap().status), 503);
    assert!(!conn.keep_alive);
}

#[test]
fn post_without_uploads_not_allowed() {
    let f = ServerFlags { dir_listings: true, disabled: false, uploading: false };
    let (conn, _) = dispatch(UPLOAD_HEAD, &f);
    assert_eq!(status_to_code(&conn.response.as_ref().unwrap().status), 405);
    let (conn, _) = dispatch(b"POST / HTTP/1.1\r\nContent-Type: text/plain\r\n\r\n", &flags());
    assert_eq!(status_to_code(&conn.response.as_ref().unwrap().status), 401);
}

#[test]
fn parser_window_stays_in_bounds() {
    let mut pb = PostBuffer::new(b"XY", b"--XY\r\n", 0);
    assert!(pb.parse_idx <= pb.fill_location && pb.fill_location <= pb.buffer.len());
    assert!(matches!(pb.handle_new_data(), PostAction::NeedData));
    pb.update_fill_location(b"Content-Disposition: form-data; filename=f\r\n\r\nab");
    match pb.handle_new_data() {
        PostAction::Open(name) => assert_eq!(name, b"f".to_vec()),
        _ => panic!(),
    }
    pb.file_opened(true);
    assert!(pb.has_open_file());
    assert!(pb.parse_idx <= pb.fill_location && pb.fill_location <= pb.buffer.len());
}

#[test]
fn upload_over_the_size_limit_is_refused() {
    let content = vec![7u8; 5000];
    let body = upload_body("big.bin", &content);
    let (_, conn) = run_upload_limited(UPLOAD_HEAD, &[&body[..100], &body[100..]], &[], 1000);
    assert_eq!(status_to_code(&conn.response.as_ref().unwrap().status), 413);
    let (files, conn) = run_upload_limited(UPLOAD_HEAD, &[&body], &[], 10000);
    assert_eq!(files[0].1, content);
    assert_eq!(status_to_code(&conn.response.as_ref().unwrap().status), 201);
}

#[test]
fn head_error_response_has_no_body() {
    let raw = b"HEAD /hello.txt HTTP/1.1\r\nRange: bytes=9-3\r\n\r\n";
    let (mut conn, d) = dispatch(raw, &flags());
    let req = match d {
        Dispatch::Get(r) => r,
        _ => panic!(),
    };
    let mut head = Vec::new();
    conn.finish_get(&req, GetTarget::File(14), &mut head);
    let resp = conn.response.as_ref().unwrap();
    assert_eq!(status_to_code(&resp.status), 401);
    assert!(matches!(resp.data, ResponseDataType::Empty));
    assert!(String::from_utf8(head).unwrap().starts_with("HTTP/1.1 401 Bad request\r\n"));
    let body = drain_body(&mut conn, HELLO);
    assert!(body.is_empty());
}

#[test]
fn range_positions_the_file_body() {
    let req = HttpRequest::new(b"GET /f HTTP/1.1\r\nRange: bytes=7-11\r\n\r\n").ok().unwrap();
    let (resp, _) = build_get_response(&req, GetTarget::File(14), false).ok().unwrap();
    assert_eq!(resp.body_offset, 7);
}
