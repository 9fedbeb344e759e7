use vasu::listing::{render_listing, sort_children, Child};
use vasu::mime::guess_mime;
use vasu::percent::percent_decode;
use vasu::request::{parse_request, parse_request_path, path_extension, resolve_path, Request};
use vasu::response::{HttpResponse, Status};
use vasu::server::{respond, Found};

fn text(b: &[u8]) -> String {
    String::from_utf8_lossy(b).into_owned()
}

fn child(name: &str, is_dir: bool) -> Child {
    Child { name: name.as_bytes().to_vec(), is_dir }
}

fn request(raw: &str, target: &str) -> Request {
    Request { raw_path: raw.as_bytes().to_vec(), target: target.as_bytes().to_vec() }
}

#[test]
fn mime_known_extensions() {
    let table = [
        ("html", "text/html"),
        ("htm", "text/html"),
        ("css", "text/css"),
        ("js", "application/javascript"),
        ("json", "application/json"),
        ("png", "image/png"),
        ("jpg", "image/jpeg"),
        ("jpeg", "image/jpeg"),
        ("gif", "image/gif"),
        ("svg", "image/svg+xml"),
        ("pdf", "application/pdf"),
        ("txt", "text/plain"),
        ("md", "text/plain"),
    ];
    for (ext, mime) in table {
        assert_eq!(guess_mime(ext.as_bytes()), mime, "extension {ext}");
    }
}

#[test]
fn mime_unknown_extensions() {
    for ext in ["", "HTML", "Png", "rs", "tar", "htmlx", "ht"] {
        assert_eq!(guess_mime(ext.as_bytes()), "application/octet-stream", "extension {ext}");
    }
}

#[test]
fn decode_valid_escapes() {
    assert_eq!(percent_decode(b"%41"), b"A".to_vec());
    assert_eq!(percent_decode(b"a%2Fb"), b"a/b".to_vec());
    assert_eq!(percent_decode(b"%20%7e"), b" ~".to_vec());
    assert_eq!(percent_decode(b"%e9"), vec![0xE9u8]);
    assert_eq!(percent_decode(b"%C3%A9"), "é".as_bytes().to_vec());
    assert_eq!(percent_decode(b"/my%20file.txt"), b"/my file.txt".to_vec());
}

#[test]
fn decode_plain_text_unchanged() {
    assert_eq!(percent_decode(b""), Vec::<u8>::new());
    assert_eq!(percent_decode(b"/a/b?c=d&e"), b"/a/b?c=d&e".to_vec());
    assert_eq!(percent_decode("/é".as_bytes()), "/é".as_bytes().to_vec());
}

#[test]
fn decode_drops_malformed_escapes() {
    assert_eq!(percent_decode(b"a%zzb"), b"ab".to_vec());
    assert_eq!(percent_decode(b"a%4gb"), b"ab".to_vec());
    assert_eq!(percent_decode(b"a%+fb"), b"ab".to_vec());
    assert_eq!(percent_decode(b"ab%4"), b"ab".to_vec());
    assert_eq!(percent_decode(b"ab%"), b"ab".to_vec());
    assert_eq!(percent_decode("x%é1y".as_bytes()), b"xy".to_vec());
    assert_eq!(percent_decode(b"%%41"), b"1".to_vec());
}

#[test]
fn request_path_is_second_token() {
    assert_eq!(parse_request_path(b"GET /index.html HTTP/1.1\r\n"), b"/index.html".to_vec());
    assert_eq!(parse_request_path(b"POST /a%20b HTTP/1.0\r\n"), b"/a%20b".to_vec());
    assert_eq!(parse_request_path(b"  GET \t /x  \n"), b"/x".to_vec());
    assert_eq!(parse_request_path(b"GET /only"), b"/only".to_vec());
}

#[test]
fn request_path_defaults_to_root() {
    assert_eq!(parse_request_path(b""), b"/".to_vec());
    assert_eq!(parse_request_path(b"GET\r\n"), b"/".to_vec());
    assert_eq!(parse_request_path(b"   \r\n"), b"/".to_vec());
}

#[test]
fn resolve_joins_under_root() {
    assert_eq!(resolve_path(b"/srv", b"/"), b"/srv".to_vec());
    assert_eq!(resolve_path(b"/srv", b""), b"/srv".to_vec());
    assert_eq!(resolve_path(b"/srv", b"/a/b.txt"), b"/srv/a/b.txt".to_vec());
    assert_eq!(resolve_path(b"/", b"/a"), b"/a".to_vec());
    assert_eq!(resolve_path(b"/srv", b"a"), b"/srv/a".to_vec());
}

#[test]
fn resolve_keeps_dot_dot_and_strips_one_slash() {
    assert_eq!(resolve_path(b"/srv", b"/../etc/passwd"), b"/srv/../etc/passwd".to_vec());
    assert_eq!(resolve_path(b"/srv", b"//etc"), b"/srv//etc".to_vec());
}

#[test]
fn parse_request_decodes_and_resolves() {
    let req = parse_request(b"/srv", b"GET /my%20dir/a.txt HTTP/1.1\r\n");
    assert_eq!(req.raw_path, b"/my%20dir/a.txt".to_vec());
    assert_eq!(req.target, b"/srv/my dir/a.txt".to_vec());
}

#[test]
fn extension_of_paths() {
    assert_eq!(path_extension(b"/srv/a.txt"), b"txt".to_vec());
    assert_eq!(path_extension(b"/srv/a.tar.gz"), b"gz".to_vec());
    assert_eq!(path_extension(b"/srv/.bashrc"), Vec::<u8>::new());
    assert_eq!(path_extension(b"/srv.d/file"), Vec::<u8>::new());
    assert_eq!(path_extension(b"/srv/a."), Vec::<u8>::new());
    assert_eq!(path_extension(b"/srv/.a.md"), b"md".to_vec());
}

#[test]
fn sort_children_by_name() {
    let mut v = vec![child("index.html", false), child("b", true), child("a", true), child("B", false)];
    sort_children(&mut v);
    let names: Vec<String> = v.iter().map(|c| text(&c.name)).collect();
    assert_eq!(names, vec!["B", "a", "b", "index.html"]);
}

#[test]
fn listing_links_keep_encoded_path() {
    let body = render_listing(b"/srv/my dir", b"/my%20dir//", &vec![child("x<y>.txt", false)]);
    let body = text(&body);
    assert!(body.contains("<h2>📁 /srv/my dir</h2>"));
    assert!(body.contains("<li>📄 <a href='/my%20dir/x<y>.txt'>x<y>.txt</a></li>"));
}

#[test]
fn listing_of_root_sorted_with_links() {
    let req = request("/", "/srv");
    let found = Found::Directory(vec![child("index.html", false), child("b", true), child("a", true)]);
    let resp = respond(&req, found);
    assert_eq!(resp.status, Status::Success);
    assert_eq!(resp.content_type, Some("text/html"));
    let body = text(&resp.body);
    assert_eq!(
        body,
        "<html><head><meta charset='utf-8'></head><body><h2>📁 /srv</h2><ul>\
         <li>📁 <a href='/a'>a</a></li>\
         <li>📁 <a href='/b'>b</a></li>\
         <li>📄 <a href='/index.html'>index.html</a></li>\
         </ul></body></html>"
    );
    assert_eq!(resp.content_length, Some(resp.body.len()));
}

#[test]
fn file_response_has_length_and_type() {
    let data = b"hello, world\n".to_vec();
    let resp = respond(&request("/notes.txt", "/srv/notes.txt"), Found::File(Some(data.clone())));
    assert_eq!(resp.status.code(), 200);
    let wire = resp.to_bytes();
    let mut expected = b"HTTP/1.1 200 OK\r\nContent-Type: text/plain\r\nContent-Length: 13\r\n\r\n".to_vec();
    expected.extend_from_slice(&data);
    assert_eq!(wire, expected);
}

#[test]
fn file_response_binary_unknown_type() {
    let data: Vec<u8> = (0..=255u8).collect();
    let resp = respond(&request("/blob.bin", "/srv/blob.bin"), Found::File(Some(data.clone())));
    assert_eq!(resp.content_type, Some("application/octet-stream"));
    assert_eq!(resp.content_length, Some(256));
    assert_eq!(resp.body, data);
}

#[test]
fn empty_file_response() {
    let resp = respond(&request("/e.json", "/srv/e.json"), Found::File(Some(Vec::new())));
    assert_eq!(
        text(&resp.to_bytes()),
        "HTTP/1.1 200 OK\r\nContent-Type: application/json\r\nContent-Length: 0\r\n\r\n"
    );
}

#[test]
fn unreadable_file_is_internal_error() {
    let resp = respond(&request("/secret", "/srv/secret"), Found::File(None));
    assert_eq!(resp.status.code(), 500);
    assert_eq!(text(&resp.to_bytes()), "HTTP/1.1 500 Internal Server Error\r\n\r\n");
}

#[test]
fn missing_is_404_oops() {
    let resp = respond(&request("/nope", "/srv/nope"), Found::Missing);
    assert_eq!(resp.status.code(), 404);
    assert_eq!(resp.body, b"404 oops".to_vec());
    assert_eq!(resp.content_length, Some(9));
    assert_eq!(
        text(&resp.to_bytes()),
        "HTTP/1.1 404 Not Found\r\nContent-Length: 9\r\n\r\n404 oops"
    );
}

#[test]
fn response_constructors() {
    let ok = HttpResponse::ok("text/css", b"a{}".to_vec());
    assert_eq!(text(&ok.to_bytes()), "HTTP/1.1 200 OK\r\nContent-Type: text/css\r\nContent-Length: 3\r\n\r\na{}");
    assert_eq!(HttpResponse::not_found().status, Status::NotFound);
    assert_eq!(HttpResponse::internal_error().status, Status::InternalError);
    let big = HttpResponse::ok("text/plain", vec![b'x'; 12345]);
    assert!(text(&big.to_bytes()).starts_with("HTTP/1.1 200 OK\r\nContent-Type: text/plain\r\nContent-Length: 12345\r\n\r\n"));
}

#[test]
fn sequential_connections_are_independent() {
    let first = respond(&parse_request(b"/srv", b"GET /a.txt HTTP/1.1\r\n"), Found::File(Some(b"AAAA".to_vec())));
    let second = respond(&parse_request(b"/srv", b"GET /b HTTP/1.1\r\n"), Found::Missing);
    let second_alone = respond(&parse_request(b"/srv", b"GET /b HTTP/1.1\r\n"), Found::Missing);
    assert_eq!(second.to_bytes(), second_alone.to_bytes());
    let first_again = respond(&parse_request(b"/srv", b"GET /a.txt HTTP/1.1\r\n"), Found::File(Some(b"AAAA".to_vec())));
    assert_eq!(first.to_bytes(), first_again.to_bytes());
    assert!(!text(&second.to_bytes()).contains("AAAA"));
}

/// A root holding `index.html` (12 bytes) and an empty directory `a`.
fn look(target: &[u8]) -> Found {
    match target {
        b"/root" => Found::Directory(vec![child("index.html", false), child("a", true)]),
        b"/root/a" | b"/root/a/" => Found::Directory(Vec::new()),
        b"/root/index.html" => Found::File(Some(b"<h1>hi</h1>\n".to_vec())),
        _ => Found::Missing,
    }
}

fn serve(line: &str) -> String {
    let req = parse_request(b"/root", line.as_bytes());
    let found = look(&req.target);
    text(&respond(&req, found).to_bytes())
}

#[test]
fn end_to_end_scenario() {
    let listing = serve("GET / HTTP/1.1\r\n");
    assert!(listing.starts_with("HTTP/1.1 200 OK\r\nContent-Type: text/html\r\n"));
    assert!(listing.contains("<a href='/a'>a</a>"));
    assert!(listing.contains("<a href='/index.html'>index.html</a>"));

    let index = serve("GET /index.html HTTP/1.1\r\n");
    assert_eq!(index, "HTTP/1.1 200 OK\r\nContent-Type: text/html\r\nContent-Length: 12\r\n\r\n<h1>hi</h1>\n");

    let missing = serve("GET /missing.txt HTTP/1.1\r\n");
    assert_eq!(missing, "HTTP/1.1 404 Not Found\r\nContent-Length: 9\r\n\r\n404 oops");

    let sub = serve("GET /a/ HTTP/1.1\r\n");
    assert!(sub.contains("<h2>📁 /root/a/</h2><ul></ul>"));
}
