use hypershare::connection::{HttpConnection, ServerFlags};
use hypershare::engine::{
    apply_control, check_target, control_byte, decode_control, path_within_root, relative_path,
    resolve_io_error, should_evict, wants_read, wants_write, Control, EntryKind, IoFailure,
};
use hypershare::history::{ConnectionStats, ControlEvent, History, HISTORY_LEN};
use hypershare::http_core::{
    decode_request, get_byte_from_hex, get_post_boundary, status_to_code, status_to_message,
    undo_percent_encoding, version_to_str, HttpMethod, HttpRequest, HttpStatus, HttpVersion,
};
use hypershare::connection::ConnectionState;
use hypershare::matcher::{find_body_start, find_in, BMBuf};
use hypershare::opts::{server_flags, verify_opts, Opts};
use hypershare::post_buffer::{parse_part_headers, PostBufferError};
use hypershare::range::{content_range_value, decode_content_range, resolve_range, ContentRange};
use hypershare::rendering::{
    generate_href, render_directory, render_error, DirEntryInfo, HtmlElement, HtmlStyle,
};
use hypershare::response::{HttpResponse, SeekableString};

fn req(raw: &str) -> HttpRequest {
    HttpRequest::new(raw.as_bytes()).ok().unwrap()
}

#[test]
fn status_codes_and_messages() {
    assert_eq!(status_to_code(&HttpStatus::Continue), 100);
    assert_eq!(status_to_code(&HttpStatus::Created), 201);
    assert_eq!(status_to_code(&HttpStatus::BadRequest), 401);
    assert_eq!(status_to_code(&HttpStatus::RequestHeadersTooLarge), 431);
    assert_eq!(status_to_code(&HttpStatus::HttpVersionNotSupported), 505);
    assert_eq!(status_to_message(&HttpStatus::NotImplemented), "Method not implemented");
    assert_eq!(status_to_message(&HttpStatus::PartialContent), "Partial content");
    assert_eq!(version_to_str(&HttpVersion::Http1_0), "HTTP/1.0");
    assert_eq!(version_to_str(&HttpVersion::Http1_1), "HTTP/1.1");
}

#[test]
fn request_head_is_parsed() {
    let r = req("GET /a%20b HTTP/1.0\r\nHost:  example:8080 \r\nX-Empty:\r\nnocolon\r\n\r\n");
    assert!(r.method == Some(HttpMethod::GET));
    assert!(r.version == HttpVersion::Http1_0);
    assert_eq!(r.path, b"/a b".to_vec());
    assert_eq!(r.headers.len(), 2);
    assert_eq!(r.headers[0].key, b"host".to_vec());
    assert_eq!(r.headers[0].value, b"example:8080".to_vec());
    assert_eq!(r.get_header(b"HOST").unwrap(), &b"example:8080".to_vec());
    assert_eq!(r.get_header(b"x-empty").unwrap(), &Vec::<u8>::new());
    assert!(r.get_header(b"nocolon").is_none());
}

#[test]
fn duplicate_headers_keep_the_first() {
    let r = req("POST / HTTP/1.1\r\nA: 1\r\na: 2\r\n\r\n");
    assert!(r.method == Some(HttpMethod::POST));
    assert_eq!(r.get_header(b"a").unwrap(), &b"1".to_vec());
}

#[test]
fn request_head_errors() {
    let bad = |raw: &[u8]| match HttpRequest::new(raw) {
        Err(s) => status_to_code(&s),
        Ok(_) => 0,
    };
    assert_eq!(bad(b"GET / HTTP/1.1 extra\r\n\r\n"), 401);
    assert_eq!(bad(b"GET /\r\n\r\n"), 401);
    assert_eq!(bad(b"GET / HTTP/2.0\r\n\r\n"), 505);
    assert_eq!(bad(b"GET / HTTP/1.1\r\nA: b"), 431);
    assert_eq!(bad(b"GET /\xff HTTP/1.1\r\n\r\n"), 401);
    assert!(matches!(decode_request(b"GET /\xc3\x28 HTTP/1.1\r\n\r\n"), Err(HttpStatus::BadRequest)));
    let unknown = req("PUT /x HTTP/1.1\r\n\r\n");
    assert!(unknown.method.is_none());
}

#[test]
fn percent_decoding() {
    assert_eq!(undo_percent_encoding(b"%41%62c"), b"Abc".to_vec());
    assert_eq!(undo_percent_encoding(b"%ff%00%2F"), vec![0xff, 0x00, b'/']);
    assert_eq!(undo_percent_encoding(b"100%"), b"100%".to_vec());
    assert_eq!(undo_percent_encoding(b"%zz%4"), b"%zz%4".to_vec());
    assert_eq!(undo_percent_encoding(b"%%41"), b"%A".to_vec());
    assert_eq!(get_byte_from_hex(b'f', b'F'), 255);
    assert_eq!(get_byte_from_hex(b'0', b'a'), 10);
}

#[test]
fn percent_decoding_undoes_encoding_of_every_byte() {
    for b in 0..=255u8 {
        let enc = format!("%{:02X}", b);
        assert_eq!(undo_percent_encoding(enc.as_bytes()), vec![b]);
        let enc = format!("%{:02x}", b);
        assert_eq!(undo_percent_encoding(enc.as_bytes()), vec![b]);
    }
}

#[test]
fn range_headers() {
    let cr = |s: &str| decode_content_range(s.as_bytes());
    assert!(cr("bytes=7-11") == Some(ContentRange { start: 7, end: Some(11) }));
    assert!(cr("bytes=-500") == Some(ContentRange { start: 0, end: Some(500) }));
    assert!(cr("bytes=0-") == Some(ContentRange { start: 0, end: None }));
    assert!(cr("bytes=5-") == Some(ContentRange { start: 5, end: None }));
    assert!(cr("bytes=5-5") == Some(ContentRange { start: 5, end: Some(5) }));
    assert!(cr("bytes=0-0").is_none());
    assert!(cr("bytes=+7-+11") == Some(ContentRange { start: 7, end: Some(11) }));
    assert!(cr("bytes=+-5").is_none());
    assert!(cr("bytes=6-5").is_none());
    assert!(cr("bytes 0-5").is_none());
    assert!(cr("bytes=1-2-3").is_none());
    assert!(cr("bytes=99999999999999999999999-").is_none());
    assert_eq!(resolve_range(&ContentRange { start: 7, end: Some(11) }, 14), (7, 5));
    assert_eq!(resolve_range(&ContentRange { start: 7, end: Some(100) }, 14), (7, 7));
    assert_eq!(resolve_range(&ContentRange { start: 20, end: None }, 14), (14, 0));
    assert_eq!(content_range_value(7, 5, 14), b"bytes 7-11/14".to_vec());
    assert_eq!(content_range_value(14, 0, 14), b"bytes 14-14/14".to_vec());
}

#[test]
fn ranges_cover_the_body() {
    let content: Vec<u8> = (0..50u8).collect();
    let n = content.len();
    let piece = |c: ContentRange| {
        let (s, l) = resolve_range(&c, n);
        content[s..s + l].to_vec()
    };
    for s in 1..n - 1 {
        for e in s..n - 1 {
            let mut all = piece(ContentRange { start: 0, end: Some(s - 1) });
            all.extend(piece(ContentRange { start: s, end: Some(e) }));
            all.extend(piece(ContentRange { start: e + 1, end: Some(n - 1) }));
            assert_eq!(all, content);
        }
    }
}

#[test]
fn multipart_boundary() {
    let r = req("POST / HTTP/1.1\r\nContent-Type: multipart/form-data; boundary=ABC\r\n\r\n");
    assert_eq!(get_post_boundary(&r).unwrap(), b"ABC".to_vec());
    let r = req("POST / HTTP/1.1\r\ncontent-type: multipart/form-data;boundary=\"x y\"\r\n\r\n");
    assert_eq!(get_post_boundary(&r).unwrap(), b"x y".to_vec());
    let r = req("POST / HTTP/1.1\r\nContent-Type: multipart/form-data\r\n\r\n");
    assert!(get_post_boundary(&r).is_none());
    let r = req("POST / HTTP/1.1\r\nContent-Type: multipart/form-data; boundary=\"\r\n\r\n");
    assert!(get_post_boundary(&r).is_none());
    let r = req("POST / HTTP/1.1\r\nContent-Type: multipart/form-data; boundary=\"\"\r\n\r\n");
    assert!(get_post_boundary(&r).is_none());
    let r = req("POST / HTTP/1.1\r\nContent-Type: multipart/form-data; boundary=\"AB\r\n\r\n");
    assert!(get_post_boundary(&r).is_none());
    let r = req("POST / HTTP/1.1\r\n\r\n");
    assert!(get_post_boundary(&r).is_none());
}

#[test]
fn byte_matcher() {
    assert_eq!(find_body_start(b"GET / HTTP/1.1\r\n\r\nbody"), Some(18));
    assert_eq!(find_body_start(b"GET / HTTP/1.1\r\n\r"), None);
    assert_eq!(find_body_start(b"\r\n\r\n\r\n\r\n"), Some(4));
    assert_eq!(find_in(b"--B", b"x--B--B", 0, 7), Some(1));
    assert_eq!(find_in(b"--B", b"x--B--B", 2, 7), Some(4));
    assert_eq!(find_in(b"--B", b"x--B--B", 2, 6), None);
    let buf = BMBuf(b"abc");
    assert_eq!(buf.len(), 3);
    assert_eq!(buf.value_at(1), b'b');
}

#[test]
fn part_headers() {
    let ok = |m: &str| parse_part_headers(m.as_bytes());
    assert_eq!(
        ok("Content-Disposition: form-data; name=\"data\"; filename=\"out.bin\"\r\nContent-Type: x\r\n\r\n").unwrap(),
        b"out.bin".to_vec()
    );
    assert_eq!(ok("content-disposition: form-data; filename= plain.txt \r\n\r\n").unwrap(), b"plain.txt".to_vec());
    assert!(ok("Content-Type: x\r\n\r\n").is_err());
    assert!(ok("Content-Disposition: form-data; name=\"x\"\r\n\r\n").is_err());
    assert!(ok("Content-Disposition: form-data; filename=\"a/b\"\r\n\r\n").is_err());
    assert!(ok("Content-Disposition: form-data; filename=\"\"\r\n\r\n").is_err());
    assert!(ok("Content-Disposition: form-data; filename=\"\r\n\r\n").is_err());
    assert!(ok("Content-Disposition: form-data; filename=\"ab\r\n\r\n").is_err());
    assert_eq!(ok("Content-Disposition: form-data; filename=\"a\"\r\n\r\n").unwrap(), b"a".to_vec());
}

#[test]
fn post_buffer_errors() {
    let mut e = PostBufferError::no_error();
    assert!(e.get_code() == HttpStatus::OK);
    assert_eq!(e.get_reason(), "No error occurred.");
    e.add_error(&PostBufferError::new(HttpStatus::PayloadTooLarge, "too big".to_string()));
    assert!(e.get_code() == HttpStatus::PayloadTooLarge);
    assert_eq!(e.get_reason(), "too big");
    e.add_error(&PostBufferError::server_error("disk".to_string()));
    assert!(e.get_code() == HttpStatus::PayloadTooLarge);
    assert_eq!(e.get_reason(), "too big disk");
}

#[test]
fn response_head_on_the_wire() {
    let mut resp = HttpResponse::new(HttpStatus::OK, &HttpVersion::Http1_0);
    resp.add_header(b"Server".to_vec(), b"hypershare".to_vec());
    resp.set_content_length(42);
    assert_eq!(resp.bytes_to_write, 42);
    assert_eq!(resp.get_code(), b"200".to_vec());
    assert_eq!(resp.chunk_size(), 42);
    let mut out = Vec::new();
    resp.write_headers_to_stream(&mut out);
    assert!(resp.headers_written);
    assert_eq!(out, b"HTTP/1.0 200 OK\r\nServer: hypershare\r\nContent-Length: 42\r\n\r\n".to_vec());
}

#[test]
fn seekable_string() {
    let mut s = SeekableString::new(b"hello world".to_vec());
    assert_eq!(s.read(5), b"hello".to_vec());
    assert_eq!(s.read(100), b" world".to_vec());
    assert!(s.read(3).is_empty());
    s.seek(6);
    assert_eq!(s.read(3), b"wor".to_vec());
}

#[test]
fn history_ring() {
    let mut h = History::new();
    assert_eq!(h.capacity(), HISTORY_LEN);
    assert_eq!(h.get_idx(), HISTORY_LEN - 1);
    assert!(h.iter().next().is_none());
    for i in 0..60 {
        h.push(format!("line {}", i));
    }
    assert_eq!(h.get_idx(), 9);
    assert_eq!(h.get(9).as_ref().unwrap(), "line 59");
    let mut it = h.iter();
    let mut seen = Vec::new();
    while let Some(s) = it.next() {
        seen.push(s.clone());
    }
    assert_eq!(seen.len(), HISTORY_LEN);
    assert_eq!(seen[0], "line 59");
    assert_eq!(seen[49], "line 10");
}

#[test]
fn html_elements() {
    let mut p = HtmlElement::new("pre", HtmlStyle::CanHaveChildren);
    p.add_text(b"hi".to_vec());
    p.add_class("error");
    p.add_class("big");
    p.add_attribute(b"id".to_vec(), b"x".to_vec());
    assert_eq!(p.render(), b"<pre id='x' class=' error big'>hi</pre>".to_vec());
    let mut hr = HtmlElement::new("hr", HtmlStyle::NoChildren);
    hr.add_child(&p);
    assert_eq!(hr.render(), b"<hr>".to_vec());
    let mut div = HtmlElement::new("div", HtmlStyle::CanHaveChildren);
    div.add_child(&hr);
    div.add_child(&hr);
    assert_eq!(div.render(), b"<div><hr><hr></div>".to_vec());
}

#[test]
fn links_and_pages() {
    assert_eq!(generate_href(b"", b"a.txt"), b"/a.txt".to_vec());
    assert_eq!(generate_href(b"dir", b"a.txt"), b"/dir/a.txt".to_vec());
    assert_eq!(generate_href(b"dir/", b"a.txt"), b"/dir/a.txt".to_vec());
    let page = String::from_utf8(render_error(&HttpStatus::NotFound, Some(b"gone".to_vec()))).unwrap();
    assert!(page.starts_with("<html><head>"));
    assert!(page.contains("<h1>404 Not found</h1><hr><pre class=' error'>gone</pre>"));
    assert!(page.ends_with("</body></html>"));
    let page = String::from_utf8(render_error(&HttpStatus::Created, None)).unwrap();
    assert!(page.contains("<h1>201 Created</h1><hr><footer>"));
}

#[test]
fn directory_listing() {
    let entries = vec![
        DirEntryInfo { name: b"a.txt".to_vec(), is_dir: false, is_file: true, len: 12, sum: None },
        DirEntryInfo {
            name: b"a.txt.md5sum".to_vec(),
            is_dir: false,
            is_file: true,
            len: 32,
            sum: Some(b"0123".to_vec()),
        },
        DirEntryInfo { name: b"sub".to_vec(), is_dir: true, is_file: false, len: 0, sum: None },
    ];
    let page = String::from_utf8(render_directory(b"docs", Some(&entries), true)).unwrap();
    assert!(page.starts_with("<html>"));
    assert!(page.ends_with("</html>"));
    assert!(page.contains("Directory listing for /docs"));
    assert!(page.contains("<a href='/docs/a.txt'>a.txt</a>"));
    assert!(page.contains("MD5: 0123"));
    assert!(!page.contains(">a.txt.md5sum<"));
    assert!(page.contains("[DIR]"));
    assert!(page.contains("<a href='/docs/..'><i>Up a directory</i></a>"));
    assert!(page.contains("enctype='multipart/form-data'"));
    let page = String::from_utf8(render_directory(b"", None, false)).unwrap();
    assert!(page.contains("Error reading directory"));
    assert!(!page.contains("Up a directory"));
    assert!(!page.contains("<form"));
}

#[test]
fn engine_decisions() {
    assert!(wants_read(ConnectionState::ReadingRequest));
    assert!(wants_read(ConnectionState::ReadingPostBody));
    assert!(!wants_read(ConnectionState::WritingResponse));
    assert!(wants_write(ConnectionState::WritingResponse));
    assert!(should_evict(ConnectionState::Closing, false));
    assert!(should_evict(ConnectionState::ReadingRequest, true));
    assert!(!should_evict(ConnectionState::ReadingRequest, false));
    assert!(decode_control(None) == Control::Stop);
    assert!(decode_control(Some(b't')) == Control::Toggle);
    assert!(decode_control(Some(b'k')) == Control::CloseAll);
    assert!(decode_control(Some(b'p')) == Control::Poke);
    let mut f = ServerFlags { dir_listings: true, disabled: false, uploading: false };
    assert!(!apply_control(&mut f, Control::Toggle));
    assert!(f.disabled);
    assert!(apply_control(&mut f, Control::CloseAll));
    assert!(f.disabled);
    assert_eq!(control_byte(ControlEvent::Toggle), Some(b't'));
    assert_eq!(control_byte(ControlEvent::CloseAll), Some(b'k'));
    assert_eq!(control_byte(ControlEvent::Quit), None);
    assert!(path_within_root(b"/srv", b"/srv"));
    assert!(path_within_root(b"/", b"/etc"));
    assert!(!path_within_root(b"/srv", b"/srvx"));
    assert_eq!(relative_path(b"/a/b"), b"a/b");
    assert_eq!(relative_path(b"a"), b"a");
}

#[test]
fn options() {
    let mut o = Opts {
        directory: ".".to_string(),
        port: 80,
        hostmask: "0.0.0.0".to_string(),
        uploading_enabled: true,
        disable_directory_listings: true,
        start_disabled: true,
        ui_refresh_rate: 100,
        headless: true,
        size_limit: 0,
        index_file: "index.html".to_string(),
        no_index_file: false,
        no_append_slash: false,
    };
    let r = verify_opts(&o);
    assert!(r.stays_disabled);
    assert!(!r.invalid_index_file);
    o.index_file = "a/index.html".to_string();
    assert!(verify_opts(&o).invalid_index_file);
    let f = server_flags(&o);
    assert!(!f.dir_listings && f.disabled && f.uploading);
}

#[test]
fn dashboard_stats() {
    let mut conn = HttpConnection::new();
    let mut stats = ConnectionStats::new();
    assert_eq!(stats.last_requested_uri, b"[Reading...]".to_vec());
    assert!(!stats.update(&conn));
    conn.last_requested_uri = Some(b"/x".to_vec());
    conn.num_requests = 1;
    conn.bytes_requested = 200;
    conn.bytes_sent = 50;
    assert!(stats.update(&conn));
    assert_eq!(stats.last_requested_uri, b"/x".to_vec());
    assert_eq!(stats.percent_sent(), 25);
    assert!(!stats.update(&conn));
}

#[test]
fn served_path_policy() {
    let root = b"/srv/share";
    let t = |p: &[u8], k: Result<EntryKind, IoFailure>, dirs: bool| match check_target(root, p, k, dirs) {
        Ok(_) => 0,
        Err(s) => status_to_code(&s),
    };
    assert_eq!(t(b"/etc/passwd", Ok(EntryKind::File), true), 404);
    assert_eq!(t(b"/etc/passwd", Err(IoFailure::PermissionDenied), true), 404);
    assert_eq!(t(b"/srv/share/a", Ok(EntryKind::File), true), 0);
    assert_eq!(t(b"/srv/share/d", Ok(EntryKind::Directory), true), 0);
    assert_eq!(t(b"/srv/share/d", Ok(EntryKind::Directory), false), 403);
    assert_eq!(t(b"/srv/share/fifo", Ok(EntryKind::Other), true), 403);
    assert_eq!(t(b"/srv/share/x", Err(IoFailure::NotFound), true), 404);
    assert_eq!(t(b"/srv/share/x", Err(IoFailure::Other), true), 500);
    assert_eq!(status_to_code(&resolve_io_error(IoFailure::PermissionDenied)), 403);
}
