use webkv::codec::{parse_request, HttpError};
use webkv::digits::u64_to_dec;
use webkv::mime::get_mime_type;
use webkv::pages::{format_href, format_index, listing_body, local_path_of, is_stats_path};
use webkv::render::{start_response, send_header, end_headers, response_message};

#[test]
fn parse_request_with_headers() {
    let head = b"GET /index.html HTTP/1.1\r\nHost: example\r\nAccept: */*\r\n\r\n";
    let req = parse_request(head).unwrap();
    assert_eq!(req.method, b"GET".to_vec());
    assert_eq!(req.path, b"/index.html".to_vec());
    assert_eq!(req.version, b"HTTP/1.1".to_vec());
    assert_eq!(req.headers.len(), 2);
    assert_eq!(req.headers[0], (b"Host".to_vec(), b"example".to_vec()));
    assert_eq!(req.headers[1], (b"Accept".to_vec(), b"*/*".to_vec()));
}

#[test]
fn parse_request_without_headers() {
    let req = parse_request(b"GET / HTTP/1.0\r\n\r\n").unwrap();
    assert_eq!(req.method, b"GET".to_vec());
    assert_eq!(req.path, b"/".to_vec());
    assert_eq!(req.version, b"HTTP/1.0".to_vec());
    assert!(req.headers.is_empty());
}

#[test]
fn parse_header_without_space_after_colon() {
    let req = parse_request(b"GET / HTTP/1.1\r\nHost:close\r\n\r\n").unwrap();
    assert_eq!(req.headers[0], (b"Host".to_vec(), b"close".to_vec()));
}

#[test]
fn parse_header_value_keeps_later_colons() {
    let req = parse_request(b"GET / HTTP/1.1\r\nHost: a:8080\r\n\r\n").unwrap();
    assert_eq!(req.headers[0], (b"Host".to_vec(), b"a:8080".to_vec()));
}

#[test]
fn parse_header_with_empty_value() {
    let req = parse_request(b"GET / HTTP/1.1\r\nX-Empty:\r\n\r\n").unwrap();
    assert_eq!(req.headers[0], (b"X-Empty".to_vec(), b"".to_vec()));
}

#[test]
fn parse_rejects_unterminated_head() {
    assert_eq!(parse_request(b"GET / HTTP/1.1"), Err(HttpError::MalformedRequest));
    assert_eq!(parse_request(b"GET / HTTP/1.1\r\n"), Err(HttpError::MalformedRequest));
    assert_eq!(parse_request(b""), Err(HttpError::MalformedRequest));
}

#[test]
fn parse_rejects_bad_request_line() {
    assert_eq!(parse_request(b"GET/HTTP/1.1\r\n\r\n"), Err(HttpError::MalformedRequest));
    assert_eq!(parse_request(b"GET /\r\n\r\n"), Err(HttpError::MalformedRequest));
    assert_eq!(parse_request(b"GET index.html HTTP/1.1\r\n\r\n"),
        Err(HttpError::MalformedRequest));
    assert_eq!(parse_request(b" / HTTP/1.1\r\n\r\n"), Err(HttpError::MalformedRequest));
}

#[test]
fn parse_rejects_header_without_colon() {
    assert_eq!(parse_request(b"GET / HTTP/1.1\r\nbroken header\r\n\r\n"),
        Err(HttpError::MalformedRequest));
}

#[test]
fn parse_rejects_bytes_after_blank_line() {
    assert_eq!(parse_request(b"GET / HTTP/1.1\r\n\r\nextra"),
        Err(HttpError::MalformedRequest));
}

#[test]
fn mime_by_extension() {
    assert_eq!(get_mime_type(b"./page.html"), b"text/html".to_vec());
    assert_eq!(get_mime_type(b"./style.css"), b"text/css".to_vec());
    assert_eq!(get_mime_type(b"./app.js"), b"application/javascript".to_vec());
    assert_eq!(get_mime_type(b"./pic.png"), b"image/png".to_vec());
    assert_eq!(get_mime_type(b"./pic.jpg"), b"image/jpeg".to_vec());
    assert_eq!(get_mime_type(b"./pic.jpeg"), b"image/jpeg".to_vec());
    assert_eq!(get_mime_type(b"./anim.gif"), b"image/gif".to_vec());
    assert_eq!(get_mime_type(b"./notes.txt"), b"text/plain".to_vec());
}

#[test]
fn mime_defaults_to_octet_stream() {
    assert_eq!(get_mime_type(b"./data.bin"), b"application/octet-stream".to_vec());
    assert_eq!(get_mime_type(b"./noext"), b"application/octet-stream".to_vec());
    // the dot belongs to a directory, not to the file's name
    assert_eq!(get_mime_type(b"./a.html/file"), b"application/octet-stream".to_vec());
}

#[test]
fn decimal_rendering() {
    assert_eq!(u64_to_dec(0), b"0".to_vec());
    assert_eq!(u64_to_dec(7), b"7".to_vec());
    assert_eq!(u64_to_dec(1024), b"1024".to_vec());
    assert_eq!(u64_to_dec(18446744073709551615), b"18446744073709551615".to_vec());
}

#[test]
fn status_lines() {
    let mut out = Vec::new();
    start_response(&mut out, 200);
    assert_eq!(out, b"HTTP/1.1 200 OK\r\n".to_vec());
    let mut out = Vec::new();
    start_response(&mut out, 404);
    assert_eq!(out, b"HTTP/1.1 404 Not Found\r\n".to_vec());
    let mut out = Vec::new();
    start_response(&mut out, 500);
    assert_eq!(out, b"HTTP/1.1 500 Internal Server Error\r\n".to_vec());
}

#[test]
fn header_lines_and_blank_line() {
    let mut out = Vec::new();
    send_header(&mut out, b"Content-Type", b"text/plain");
    end_headers(&mut out);
    assert_eq!(out, b"Content-Type: text/plain\r\n\r\n".to_vec());
}

#[test]
fn reason_phrases() {
    assert_eq!(response_message(200), b"OK".to_vec());
    assert_eq!(response_message(404), b"Not Found".to_vec());
    assert_eq!(response_message(500), b"Internal Server Error".to_vec());
    assert_eq!(response_message(999), b"Unknown".to_vec());
}

#[test]
fn href_anchor() {
    assert_eq!(format_href(b"./sub/a.txt", b"a.txt"),
        b"<a href=\"./sub/a.txt\">a.txt</a>\r\n".to_vec());
}

#[test]
fn index_path() {
    assert_eq!(format_index(b"./dir"), b"./dir/index.html".to_vec());
}

#[test]
fn listing_lists_each_child_once() {
    let entries = vec![
        (b"./dir/a.txt".to_vec(), b"a.txt".to_vec()),
        (b"./dir/sub".to_vec(), b"sub".to_vec()),
    ];
    let body = listing_body(&entries);
    let text = String::from_utf8(body).unwrap();
    assert_eq!(text.matches("<a href=").count(), 2);
    assert!(text.contains("<a href=\"./dir/a.txt\">a.txt</a>"));
    assert!(text.contains("<a href=\"./dir/sub\">sub</a>"));
}

#[test]
fn local_paths_and_stats_route() {
    assert_eq!(local_path_of(b"/index.html"), b"./index.html".to_vec());
    assert!(is_stats_path(b"/stats"));
    assert!(!is_stats_path(b"/stats/"));
    assert!(!is_stats_path(b"/"));
}
