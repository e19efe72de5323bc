use file_server::codec::{percent_decode, percent_encode};
use file_server::listing::{sort_entries, DirChild};
use file_server::paths::{
    child_rel, has_json_ext, is_descendant, join_path, strip_leading_slashes, uplink,
};
use file_server::request::{HttpError, HttpRequest, Version};
use file_server::response::{
    content_type_for, AcceptRanges, HttpResponse, ResolvedTarget, ResponseStatus,
};

fn bytes(s: &str) -> Vec<u8> {
    s.as_bytes().to_vec()
}

#[test]
fn parse_request_basic() {
    let buf = bytes("GET /index.html HTTP/1.1\r\nHost: localhost\r\n\r\n");
    let req = HttpRequest::new(&buf).unwrap();
    assert_eq!(req.method, bytes("GET"));
    assert_eq!(req.path, bytes("/index.html"));
    assert_eq!(req.version, Version::V1_1);
}

#[test]
fn parse_request_version_two() {
    let buf = bytes("GET / HTTP/2.0\r\n\r\n");
    let req = HttpRequest::new(&buf).unwrap();
    assert_eq!(req.path, bytes("/"));
    assert_eq!(req.version, Version::V2_0);
}

#[test]
fn parse_request_zero_padding() {
    let mut buf = bytes("GET /a HTTP/1.1");
    buf.resize(1024, 0);
    let req = HttpRequest::new(&buf).unwrap();
    assert_eq!(req.method, bytes("GET"));
    assert_eq!(req.path, bytes("/a"));
}

#[test]
fn parse_request_single_token() {
    let buf = bytes("/just-a-target\r\n");
    let req = HttpRequest::new(&buf).unwrap();
    assert_eq!(req.method, bytes(""));
    assert_eq!(req.path, bytes("/just-a-target"));
    assert_eq!(req.version, Version::V1_1);
}

#[test]
fn parse_request_malformed() {
    assert_eq!(
        HttpRequest::new(&bytes("")).unwrap_err(),
        HttpError::MalformedRequest
    );
    assert_eq!(
        HttpRequest::new(&bytes("   \r\nGET / HTTP/1.1\r\n")).unwrap_err(),
        HttpError::MalformedRequest
    );
}

#[test]
fn decode_simple() {
    assert_eq!(percent_decode(&bytes("%41b%20c")), bytes("Ab c"));
    assert_eq!(percent_decode(&bytes("/a/b")), bytes("/a/b"));
}

#[test]
fn decode_invalid_escape_passes_through() {
    assert_eq!(percent_decode(&bytes("%zq%4")), bytes("%zq%4"));
    assert_eq!(percent_decode(&bytes("100%")), bytes("100%"));
}

#[test]
fn encode_simple() {
    assert_eq!(percent_encode(&bytes("a b")), bytes("a%20b"));
    assert_eq!(percent_encode(&bytes("/dir/file.txt")), bytes("/dir/file.txt"));
    assert_eq!(percent_encode(&bytes("a%b")), bytes("a%25b"));
}

#[test]
fn encode_decode_round_trip() {
    let cases: Vec<Vec<u8>> = vec![
        bytes(""),
        bytes("/plain/path"),
        bytes("with space/and%percent"),
        vec![0x00, 0xff, 0x2f, 0x25, 0x41],
    ];
    for original in cases {
        assert_eq!(percent_decode(&percent_encode(&original)), original);
    }
}

#[test]
fn encode_round_trip_against_url_escape() {
    let original = "/dir with space/caf\u{e9}.txt";
    let encoded = percent_encode(&bytes(original));
    let encoded_str = String::from_utf8(encoded).unwrap();
    assert_eq!(url_escape::decode(&encoded_str), original);
}

#[test]
fn strip_and_join() {
    assert_eq!(strip_leading_slashes(&bytes("//a/b")), bytes("a/b"));
    assert_eq!(strip_leading_slashes(&bytes("a")), bytes("a"));
    assert_eq!(strip_leading_slashes(&bytes("/")), bytes(""));
    assert_eq!(join_path(&bytes("/srv"), &bytes("a/b")), bytes("/srv/a/b"));
    assert_eq!(join_path(&bytes("/srv"), &bytes("")), bytes("/srv"));
}

#[test]
fn descendant_check() {
    assert!(is_descendant(&bytes("/srv/root/a"), &bytes("/srv/root")));
    assert!(is_descendant(&bytes("/srv/root"), &bytes("/srv/root")));
    assert!(!is_descendant(&bytes("/srv"), &bytes("/srv/root")));
    assert!(!is_descendant(&bytes("/etc/passwd"), &bytes("/srv/root")));
    // A same-depth sibling that merely extends the root's name must fail.
    assert!(!is_descendant(&bytes("/srv/rootx"), &bytes("/srv/root")));
}

#[test]
fn uplink_targets() {
    assert_eq!(uplink(&bytes("")), bytes("/"));
    assert_eq!(uplink(&bytes("d")), bytes("/"));
    assert_eq!(uplink(&bytes("a/b")), bytes("/a"));
    assert_eq!(uplink(&bytes("a/b/c")), bytes("/a/b"));
    assert_eq!(uplink(&bytes("a/b/")), bytes("/a"));
}

#[test]
fn child_rel_paths() {
    assert_eq!(child_rel(&bytes(""), &bytes("a.txt")), bytes("/a.txt"));
    assert_eq!(child_rel(&bytes("d"), &bytes("a.txt")), bytes("/d/a.txt"));
}

#[test]
fn json_extension() {
    assert!(has_json_ext(&bytes("/srv/conf.json")));
    assert!(has_json_ext(&bytes("/srv/a.b.json")));
    assert!(!has_json_ext(&bytes("/srv/.json")));
    assert!(!has_json_ext(&bytes("/srv/json")));
    assert!(!has_json_ext(&bytes("/srv/a.jsonx")));
}

const PNG_HEADER: [u8; 12] = [
    0x89, 0x50, 0x4e, 0x47, 0x0d, 0x0a, 0x1a, 0x0a, 0x00, 0x00, 0x00, 0x0d,
];

#[test]
fn content_type_sniffs_png() {
    let ct = content_type_for(&bytes("/srv/picture"), &PNG_HEADER.to_vec());
    assert_eq!(ct, bytes("image/png"));
}

#[test]
fn content_type_defaults_to_text() {
    let ct = content_type_for(&bytes("/srv/notes.txt"), &bytes("just some text"));
    assert_eq!(ct, bytes("text/plain"));
}

#[test]
fn content_type_json_overrides_sniffing() {
    // The content sniffs as PNG, but the extension must win.
    let ct = content_type_for(&bytes("/srv/data.json"), &PNG_HEADER.to_vec());
    assert_eq!(ct, bytes("application/json"));
}

#[test]
fn sorted_entries_order() {
    let entries = vec![
        DirChild { name: bytes("b.txt"), is_dir: false },
        DirChild { name: bytes("sub"), is_dir: true },
        DirChild { name: bytes("a.txt"), is_dir: false },
        DirChild { name: bytes("also"), is_dir: true },
    ];
    let sorted = sort_entries(entries);
    let names: Vec<Vec<u8>> = sorted.iter().map(|e| e.name.clone()).collect();
    assert_eq!(
        names,
        vec![bytes("also"), bytes("sub"), bytes("a.txt"), bytes("b.txt")]
    );
    assert!(sorted[0].is_dir && sorted[1].is_dir);
    assert!(!sorted[2].is_dir && !sorted[3].is_dir);
}

fn request_for(path: &str) -> HttpRequest {
    let buf = bytes(&format!("GET {} HTTP/1.1\r\n\r\n", path));
    HttpRequest::new(&buf).unwrap()
}

#[test]
fn file_response_exact_bytes() {
    let req = request_for("/hello.txt");
    let resp = HttpResponse::new(
        &req,
        &bytes("/srv"),
        &bytes("/srv"),
        &bytes("/srv"),
        ResolvedTarget::RegularFile(bytes("hello")),
    );
    assert_eq!(resp.status, ResponseStatus::OK);
    assert_eq!(resp.accept_ranges, AcceptRanges::Bytes);
    assert_eq!(resp.content_length, 5);
    assert_eq!(resp.current_path, bytes("/hello.txt"));
    let expected = bytes(
        "HTTP/2.0 200 OK\r\naccept-ranges: bytes\r\ncontent-length: 5\r\ncontent-type: text/plain\r\n\r\nhello",
    );
    assert_eq!(resp.response_body, expected);
}

#[test]
fn file_response_body_is_verbatim() {
    let content: Vec<u8> = vec![0x00, 0x01, 0xfe, 0xff];
    let req = request_for("/blob");
    let resp = HttpResponse::new(
        &req,
        &bytes("/srv"),
        &bytes("/srv"),
        &bytes("/srv"),
        ResolvedTarget::RegularFile(content.clone()),
    );
    assert_eq!(resp.content_length, 4);
    let body = &resp.response_body;
    let split = body.windows(4).position(|w| w == b"\r\n\r\n").unwrap() + 4;
    assert_eq!(&body[split..], &content[..]);
}

#[test]
fn missing_response_is_fixed_404() {
    let req = request_for("/does/not/exist");
    let resp = HttpResponse::new(
        &req,
        &bytes("/srv"),
        &bytes("/srv"),
        &bytes("/srv/does"),
        ResolvedTarget::Missing,
    );
    assert_eq!(resp.status, ResponseStatus::NotFound);
    assert_eq!(resp.accept_ranges, AcceptRanges::Absent);
    let nf = "<html><body><h1>404 NOT FOUND</h1></body></html>";
    assert_eq!(resp.content_length, nf.len());
    let expected = bytes(&format!(
        "HTTP/2.0 404 NOT FOUND\r\naccept-ranges: none\r\ncontent-length: {}\r\n\r\n{}",
        nf.len(),
        nf
    ));
    assert_eq!(resp.response_body, expected);
}

#[test]
fn escape_above_root_is_rejected() {
    // The decoded target climbs above the root; even though the filesystem
    // found a file there, the response must be the 404 page, not its bytes.
    let req = request_for("/../../etc/passwd");
    let resp = HttpResponse::new(
        &req,
        &bytes("/srv/root"),
        &bytes("/srv/root"),
        &bytes("/etc"),
        ResolvedTarget::RegularFile(bytes("top secret")),
    );
    assert_eq!(resp.status, ResponseStatus::NotFound);
    let body_str = String::from_utf8_lossy(&resp.response_body).into_owned();
    assert!(!body_str.contains("top secret"));
    assert!(body_str.contains("404 NOT FOUND"));
}

#[test]
fn escape_to_sibling_is_rejected() {
    let req = request_for("/../rootx/file");
    let resp = HttpResponse::new(
        &req,
        &bytes("/srv/root"),
        &bytes("/srv/root"),
        &bytes("/srv/rootx"),
        ResolvedTarget::RegularFile(bytes("sibling data")),
    );
    assert_eq!(resp.status, ResponseStatus::NotFound);
}

#[test]
fn directory_listing_exact_bytes() {
    let req = request_for("/d");
    let entries = vec![
        DirChild { name: bytes("b.txt"), is_dir: false },
        DirChild { name: bytes("sub"), is_dir: true },
        DirChild { name: bytes("a.txt"), is_dir: false },
    ];
    let resp = HttpResponse::new(
        &req,
        &bytes("/srv"),
        &bytes("/srv"),
        &bytes("/srv"),
        ResolvedTarget::Directory(entries),
    );
    assert_eq!(resp.status, ResponseStatus::OK);
    assert_eq!(resp.accept_ranges, AcceptRanges::Absent);
    let mut listing = String::new();
    listing.push_str("<!DOCTYPE html><html><head><meta charset='utf-8'></head><body>");
    listing.push_str("<h1>Currently in /srv/d</h1>");
    listing.push_str("<a href='/'>&#8593; Up</a><br><hr>");
    listing.push_str("<a href=\"/d/sub\">&#128193; sub</a><br>");
    listing.push_str("<a href=\"/d/a.txt\">a.txt</a><br>");
    listing.push_str("<a href=\"/d/b.txt\">b.txt</a><br>");
    listing.push_str("</body></html>");
    assert_eq!(resp.content_length, listing.len());
    let expected = bytes(&format!(
        "HTTP/2.0 200 OK\r\naccept-ranges: none\r\ncontent-length: {}\r\n\r\n{}",
        listing.len(),
        listing
    ));
    assert_eq!(resp.response_body, expected);
}

#[test]
fn directory_listing_encodes_hrefs() {
    let req = request_for("/d");
    let entries = vec![DirChild { name: bytes("my file.txt"), is_dir: false }];
    let resp = HttpResponse::new(
        &req,
        &bytes("/srv"),
        &bytes("/srv"),
        &bytes("/srv"),
        ResolvedTarget::Directory(entries),
    );
    let body_str = String::from_utf8_lossy(&resp.response_body).into_owned();
    assert!(body_str.contains("<a href=\"/d/my%20file.txt\">my file.txt</a><br>"));
}

#[test]
fn directory_listing_nested_uplink() {
    let req = request_for("/a/b");
    let resp = HttpResponse::new(
        &req,
        &bytes("/srv"),
        &bytes("/srv"),
        &bytes("/srv/a"),
        ResolvedTarget::Directory(vec![]),
    );
    let body_str = String::from_utf8_lossy(&resp.response_body).into_owned();
    assert!(body_str.contains("<a href='/a'>&#8593; Up</a><br><hr>"));
    assert!(body_str.contains("<h1>Currently in /srv/a/b</h1>"));
}

#[test]
fn encoded_request_path_is_decoded() {
    // The target arrives percent-encoded; resolution must use the decoded
    // form when building the listing heading.
    let req = request_for("/my%20dir");
    let resp = HttpResponse::new(
        &req,
        &bytes("/srv"),
        &bytes("/srv"),
        &bytes("/srv"),
        ResolvedTarget::Directory(vec![]),
    );
    let body_str = String::from_utf8_lossy(&resp.response_body).into_owned();
    assert!(body_str.contains("<h1>Currently in /srv/my dir</h1>"));
    assert_eq!(resp.current_path, bytes("/my%20dir"));
}
