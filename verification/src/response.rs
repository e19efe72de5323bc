//! The response builder: classification of the resolved target, content-type
//! inference, and serialization of the status line, headers and body.

use vstd::prelude::*;

verus! {

use crate::bytesutil::{ascii_seq, dec_bytes, append_bytes, append_ascii, append_dec};
use crate::listing::{DirChild, DirChildV, views_of, spec_entries_sorted, sort_entries};
use crate::paths::{spec_strip_slashes, spec_join, spec_is_descendant, spec_uplink, spec_child_rel, spec_has_json_ext};
use crate::request::{HttpRequest, Version};

/// The status of a response.
#[derive(Clone, Copy, Debug, PartialEq, Eq, Structural)]
pub enum ResponseStatus {
    OK,
    NotFound,
}

/// Whether the response declares byte ranges. The header is informational:
/// range requests themselves are not served.
#[derive(Clone, Copy, Debug, PartialEq, Eq, Structural)]
pub enum AcceptRanges {
    Bytes,
    Absent,
}

/// The status line text of a status.
pub open spec fn spec_status_text(s: ResponseStatus) -> Seq<char> {
    match s {
        ResponseStatus::OK => "200 OK"@,
        ResponseStatus::NotFound => "404 NOT FOUND"@,
    }
}

/// The accept-ranges header line of an indicator.
pub open spec fn spec_ranges_text(a: AcceptRanges) -> Seq<char> {
    match a {
        AcceptRanges::Bytes => "accept-ranges: bytes"@,
        AcceptRanges::Absent => "accept-ranges: none"@,
    }
}

impl ResponseStatus {
    /// The text of this status as written on the status line.
    pub fn text(&self) -> (r: &'static str)
        ensures
            r@ == spec_status_text(*self),
    {
        match self {
            ResponseStatus::OK => "200 OK",
            ResponseStatus::NotFound => "404 NOT FOUND",
        }
    }
}

impl AcceptRanges {
    /// The accept-ranges header line for this indicator.
    pub fn text(&self) -> (r: &'static str)
        ensures
            r@ == spec_ranges_text(*self),
    {
        match self {
            AcceptRanges::Bytes => "accept-ranges: bytes",
            AcceptRanges::Absent => "accept-ranges: none",
        }
    }
}

/// The serialized header block: status line, accept-ranges line, content
/// length, the content type when one is declared, and a blank line. Line
/// terminators are CRLF throughout, one consistent convention across all
/// branches.
pub open spec fn spec_header(
    s: ResponseStatus,
    a: AcceptRanges,
    len: nat,
    ctype: Option<Seq<u8>>,
) -> Seq<u8> {
    ascii_seq("HTTP/2.0 "@) + ascii_seq(spec_status_text(s)) + ascii_seq("\r\n"@) + ascii_seq(
        spec_ranges_text(a),
    ) + ascii_seq("\r\ncontent-length: "@) + dec_bytes(len) + (match ctype {
        Some(t) => ascii_seq("\r\ncontent-type: "@) + t,
        None => Seq::empty(),
    }) + ascii_seq("\r\n\r\n"@)
}

/// The fixed body of every not-found response.
pub open spec fn spec_not_found_body() -> Seq<u8> {
    ascii_seq("<html><body><h1>404 NOT FOUND</h1></body></html>"@)
}

/// What `infer` sniffs from a buffer: a mime type determined by the
/// buffer's bytes alone, or nothing when no matcher recognises them.
pub uninterp spec fn sniffed_mime(content: Seq<u8>) -> Option<Seq<u8>>;

/// Relies on infer::get: the sniffed type is a function of the buffer's
/// bytes alone, found by a fixed list of content matchers; its mime string
/// is handed back as bytes.
#[verifier::external_body]
fn sniff_mime(content: &Vec<u8>) -> (r: Option<Vec<u8>>)
    ensures
        (match r {
            Option::Some(m) => sniffed_mime(content@) == Option::Some(m@),
            Option::None => sniffed_mime(content@) is None,
        }),
{
    infer::get(content.as_slice()).map(|t| t.mime_type().as_bytes().to_vec())
}

/// The content type served for a file: `application/json` whenever the
/// path's extension is exactly `json`, otherwise the sniffed type, or
/// `text/plain` when sniffing is inconclusive.
pub open spec fn spec_content_type(path: Seq<u8>, content: Seq<u8>) -> Seq<u8> {
    if spec_has_json_ext(path) {
        ascii_seq("application/json"@)
    } else {
        match sniffed_mime(content) {
            Some(m) => m,
            None => ascii_seq("text/plain"@),
        }
    }
}

/// Determines the content type for the file at `path` holding `content`.
/// The extension override takes precedence over content sniffing.
pub fn content_type_for(path: &Vec<u8>, content: &Vec<u8>) -> (r: Vec<u8>)
    ensures
        r@ == spec_content_type(path@, content@),
        spec_has_json_ext(path@) ==> r@ == ascii_seq("application/json"@),
{
    if crate::paths::has_json_ext(path) {
        let mut r: Vec<u8> = Vec::new();
        proof {
            reveal_strlit("application/json");
            assert(vstd::string::is_ascii("application/json"));
        }
        append_ascii(&mut r, "application/json");
        r
    } else {
        match sniff_mime(content) {
            Option::Some(m) => m,
            Option::None => {
                let mut r: Vec<u8> = Vec::new();
                proof {
                    reveal_strlit("text/plain");
                    assert(vstd::string::is_ascii("text/plain"));
                }
                append_ascii(&mut r, "text/plain");
                r
            },
        }
    }
}

/// The view of an optional content type.
pub open spec fn spec_opt_view(c: Option<&Vec<u8>>) -> Option<Seq<u8>> {
    match c {
        Some(t) => Some(t@),
        None => None,
    }
}

/// Appends a serialized header block to `out`.
fn append_header(
    out: &mut Vec<u8>,
    status: ResponseStatus,
    ranges: AcceptRanges,
    len: usize,
    ctype: Option<&Vec<u8>>,
)
    ensures
        final(out)@ == old(out)@ + spec_header(status, ranges, len as nat, spec_opt_view(ctype)),
{
    proof {
        reveal_strlit("HTTP/2.0 ");
        assert(vstd::string::is_ascii("HTTP/2.0 "));
        reveal_strlit("200 OK");
        reveal_strlit("404 NOT FOUND");
        reveal_strlit("accept-ranges: bytes");
        reveal_strlit("accept-ranges: none");
        reveal_strlit("\r\n");
        assert(vstd::string::is_ascii("\r\n"));
        reveal_strlit("\r\ncontent-length: ");
        assert(vstd::string::is_ascii("\r\ncontent-length: "));
        reveal_strlit("\r\ncontent-type: ");
        assert(vstd::string::is_ascii("\r\ncontent-type: "));
        reveal_strlit("\r\n\r\n");
        assert(vstd::string::is_ascii("\r\n\r\n"));
    }
    append_ascii(out, "HTTP/2.0 ");
    let st = status.text();
    proof {
        assert(vstd::string::is_ascii(st));
    }
    append_ascii(out, st);
    append_ascii(out, "\r\n");
    let rt = ranges.text();
    proof {
        assert(vstd::string::is_ascii(rt));
    }
    append_ascii(out, rt);
    append_ascii(out, "\r\ncontent-length: ");
    append_dec(out, len);
    match ctype {
        Option::Some(t) => {
            append_ascii(out, "\r\ncontent-type: ");
            append_bytes(out, t.as_slice());
        },
        Option::None => {},
    }
    append_ascii(out, "\r\n\r\n");
    proof {
        assert(out@ =~= old(out)@ + spec_header(status, ranges, len as nat, spec_opt_view(ctype)));
    }
}

/// Builds the fixed not-found body.
fn not_found_body_vec() -> (r: Vec<u8>)
    ensures
        r@ == spec_not_found_body(),
{
    let mut r: Vec<u8> = Vec::new();
    proof {
        reveal_strlit("<html><body><h1>404 NOT FOUND</h1></body></html>");
        assert(vstd::string::is_ascii("<html><body><h1>404 NOT FOUND</h1></body></html>"));
    }
    append_ascii(&mut r, "<html><body><h1>404 NOT FOUND</h1></body></html>");
    r
}

/// One listing line: a link whose href is the percent-encoded root-relative
/// path of the child, a folder glyph for subdirectories, and the child's
/// bare name as the visible text.
pub open spec fn spec_entry_line(rel: Seq<u8>, e: DirChildV) -> Seq<u8> {
    ascii_seq("<a href=\""@) + crate::codec::spec_percent_encode(spec_child_rel(rel, e.name))
        + ascii_seq("\">"@) + (if e.is_dir {
        ascii_seq("&#128193; "@)
    } else {
        Seq::empty()
    }) + e.name + ascii_seq("</a><br>"@)
}

/// Decoding a listing href recovers the child's root-relative path: the
/// encoded link in every listing line round-trips to the entry it names.
pub proof fn lemma_href_round_trip(rel: Seq<u8>, name: Seq<u8>)
    ensures
        crate::codec::spec_percent_decode(
            crate::codec::spec_percent_encode(spec_child_rel(rel, name)),
        ) == spec_child_rel(rel, name),
{
    crate::codec::lemma_percent_round_trip(spec_child_rel(rel, name));
}

/// The listing lines of a sequence of children, in the given order.
pub open spec fn spec_entry_lines(rel: Seq<u8>, s: Seq<DirChildV>) -> Seq<u8>
    decreases s.len(),
{
    if s.len() == 0 {
        Seq::empty()
    } else {
        spec_entry_line(rel, s[0]) + spec_entry_lines(rel, s.skip(1))
    }
}

/// Everything of a listing body before the entry lines: the document head,
/// a heading naming the resolved directory, and the up-link.
pub open spec fn spec_listing_front(abs: Seq<u8>, rel: Seq<u8>) -> Seq<u8> {
    ascii_seq("<!DOCTYPE html><html><head><meta charset='utf-8'></head><body>"@) + ascii_seq(
        "<h1>Currently in "@,
    ) + abs + ascii_seq("</h1>"@) + ascii_seq("<a href='"@) + spec_uplink(rel) + ascii_seq(
        "'>&#8593; Up</a><br><hr>"@,
    )
}

/// The whole listing body for the directory at `abs` (relative path `rel`)
/// with children `s`, in the order given.
pub open spec fn spec_listing_body(abs: Seq<u8>, rel: Seq<u8>, s: Seq<DirChildV>) -> Seq<u8> {
    spec_listing_front(abs, rel) + spec_entry_lines(rel, s) + ascii_seq("</body></html>"@)
}

/// Builds the listing body for the already sorted children `sorted`.
fn build_listing_body(abs: &Vec<u8>, rel: &Vec<u8>, sorted: &Vec<DirChild>) -> (r: Vec<u8>)
    ensures
        r@ == spec_listing_body(abs@, rel@, views_of(sorted@)),
{
    let mut out: Vec<u8> = Vec::new();
    proof {
        reveal_strlit("<!DOCTYPE html><html><head><meta charset='utf-8'></head><body>");
        assert(vstd::string::is_ascii(
            "<!DOCTYPE html><html><head><meta charset='utf-8'></head><body>",
        ));
        reveal_strlit("<h1>Currently in ");
        assert(vstd::string::is_ascii("<h1>Currently in "));
        reveal_strlit("</h1>");
        assert(vstd::string::is_ascii("</h1>"));
        reveal_strlit("<a href='");
        assert(vstd::string::is_ascii("<a href='"));
        reveal_strlit("'>&#8593; Up</a><br><hr>");
        assert(vstd::string::is_ascii("'>&#8593; Up</a><br><hr>"));
        reveal_strlit("<a href=\"");
        assert(vstd::string::is_ascii("<a href=\""));
        reveal_strlit("\">");
        assert(vstd::string::is_ascii("\">"));
        reveal_strlit("&#128193; ");
        assert(vstd::string::is_ascii("&#128193; "));
        reveal_strlit("</a><br>");
        assert(vstd::string::is_ascii("</a><br>"));
        reveal_strlit("</body></html>");
        assert(vstd::string::is_ascii("</body></html>"));
    }
    append_ascii(&mut out, "<!DOCTYPE html><html><head><meta charset='utf-8'></head><body>");
    append_ascii(&mut out, "<h1>Currently in ");
    append_bytes(&mut out, abs.as_slice());
    append_ascii(&mut out, "</h1>");
    append_ascii(&mut out, "<a href='");
    let up = crate::paths::uplink(rel);
    append_bytes(&mut out, up.as_slice());
    append_ascii(&mut out, "'>&#8593; Up</a><br><hr>");
    proof {
        assert(out@ =~= spec_listing_front(abs@, rel@));
    }
    let ghost vs = views_of(sorted@);
    let ghost front = spec_listing_front(abs@, rel@);
    let mut i: usize = 0;
    proof {
        assert(vs.skip(0) =~= vs);
    }
    while i < sorted.len()
        invariant
            i <= vs.len(),
            vs == views_of(sorted@),
            front == spec_listing_front(abs@, rel@),
            out@ + spec_entry_lines(rel@, vs.skip(i as int)) == front + spec_entry_lines(rel@, vs),
        decreases vs.len() - i,
    {
        proof {
            reveal_strlit("<a href=\"");
            assert(vstd::string::is_ascii("<a href=\""));
            reveal_strlit("\">");
            assert(vstd::string::is_ascii("\">"));
            reveal_strlit("&#128193; ");
            assert(vstd::string::is_ascii("&#128193; "));
            reveal_strlit("</a><br>");
            assert(vstd::string::is_ascii("</a><br>"));
            assert(vs.skip(i as int)[0] == vs[i as int]);
            assert(vs[i as int] == sorted@[i as int]@);
        }
        append_ascii(&mut out, "<a href=\"");
        let crel = crate::paths::child_rel(rel, &sorted[i].name);
        let href = crate::codec::percent_encode(&crel);
        append_bytes(&mut out, href.as_slice());
        append_ascii(&mut out, "\">");
        if sorted[i].is_dir {
            append_ascii(&mut out, "&#128193; ");
        }
        append_bytes(&mut out, sorted[i].name.as_slice());
        append_ascii(&mut out, "</a><br>");
        proof {
            assert(vs.skip(i as int).skip(1) =~= vs.skip(i + 1));
            assert(out@ + spec_entry_lines(rel@, vs.skip(i + 1)) =~= front + spec_entry_lines(
                rel@,
                vs,
            ));
        }
        i = i + 1;
    }
    proof {
        assert(spec_entry_lines(rel@, vs.skip(vs.len() as int)) =~= Seq::<u8>::empty());
        assert(out@ =~= front + spec_entry_lines(rel@, vs));
    }
    append_ascii(&mut out, "</body></html>");
    proof {
        assert(out@ =~= spec_listing_body(abs@, rel@, vs));
    }
    out
}

/// How a confined candidate path was classified on the filesystem.
pub enum ResolvedTarget {
    /// An existing regular file and its full content.
    RegularFile(Vec<u8>),
    /// An existing directory and its immediate children, in any order.
    Directory(Vec<DirChild>),
    /// Nothing exists at the candidate path.
    Missing,
}

/// A serialized response, ready for the transport, and the path it served.
#[derive(Debug)]
pub struct HttpResponse {
    /// The protocol version echoed on the status line.
    pub version: Version,
    /// The status served.
    pub status: ResponseStatus,
    /// The byte length of the body alone.
    pub content_length: usize,
    /// The accept-ranges indicator: bytes for files, absent otherwise.
    pub accept_ranges: AcceptRanges,
    /// The whole wire response: headers, blank line, body.
    pub response_body: Vec<u8>,
    /// The request's path as received, kept for logging.
    pub current_path: Vec<u8>,
}

/// The not-found response for `current_path`.
fn not_found_response(current_path: Vec<u8>) -> (r: HttpResponse)
    ensures
        r.version == Version::V2_0,
        r.status == ResponseStatus::NotFound,
        r.accept_ranges == AcceptRanges::Absent,
        r.content_length == spec_not_found_body().len(),
        r.response_body@ == spec_header(
            ResponseStatus::NotFound,
            AcceptRanges::Absent,
            spec_not_found_body().len(),
            None,
        ) + spec_not_found_body(),
        r.current_path == current_path,
{
    let nf = not_found_body_vec();
    let mut body: Vec<u8> = Vec::new();
    append_header(&mut body, ResponseStatus::NotFound, AcceptRanges::Absent, nf.len(), None);
    append_bytes(&mut body, nf.as_slice());
    HttpResponse {
        version: Version::V2_0,
        status: ResponseStatus::NotFound,
        content_length: nf.len(),
        accept_ranges: AcceptRanges::Absent,
        response_body: body,
        current_path,
    }
}

impl HttpResponse {
    /// Builds the response for one decoded request.
    ///
    /// The caller resolves the filesystem: `root` is the server root as it
    /// names it, `canon_root` its canonical form, `canon_parent` the
    /// canonical parent of the candidate path, and `target` what it found
    /// there. Classification is honoured only when the canonical parent
    /// lies beneath the canonical root; every climb above the root is
    /// answered not-found, never with content from outside the root.
    pub fn new(
        request: &HttpRequest,
        root: &Vec<u8>,
        canon_root: &Vec<u8>,
        canon_parent: &Vec<u8>,
        target: ResolvedTarget,
    ) -> (r: HttpResponse)
        ensures
            ({
                let rel = spec_strip_slashes(crate::codec::spec_percent_decode(request.path@));
                let abs = spec_join(root@, rel);
                let ok = spec_is_descendant(canon_parent@, canon_root@);
                &&& r.version == Version::V2_0
                &&& r.current_path@ == request.path@
                &&& (r.status == ResponseStatus::OK <==> (ok && !(target is Missing)))
                &&& (!ok || target is Missing) ==> (r.accept_ranges == AcceptRanges::Absent
                    && r.content_length == spec_not_found_body().len() && r.response_body@
                    == spec_header(
                    ResponseStatus::NotFound,
                    AcceptRanges::Absent,
                    spec_not_found_body().len(),
                    None,
                ) + spec_not_found_body())
                &&& ok ==> (match target {
                    ResolvedTarget::RegularFile(content) => {
                        &&& r.accept_ranges == AcceptRanges::Bytes
                        &&& r.content_length == content@.len()
                        &&& r.response_body@ == spec_header(
                            ResponseStatus::OK,
                            AcceptRanges::Bytes,
                            content@.len(),
                            Some(spec_content_type(abs, content@)),
                        ) + content@
                    },
                    ResolvedTarget::Directory(entries) => (exists|s: Seq<DirChildV>|
                        #![auto]
                        {
                            &&& s.to_multiset() == views_of(entries@).to_multiset()
                            &&& spec_entries_sorted(s)
                            &&& r.accept_ranges == AcceptRanges::Absent
                            &&& r.content_length == spec_listing_body(abs, rel, s).len()
                            &&& r.response_body@ == spec_header(
                                ResponseStatus::OK,
                                AcceptRanges::Absent,
                                spec_listing_body(abs, rel, s).len(),
                                None,
                            ) + spec_listing_body(abs, rel, s)
                        }),
                    ResolvedTarget::Missing => true,
                })
            }),
    {
        let decoded = crate::codec::percent_decode(&request.path);
        let rel = crate::paths::strip_leading_slashes(&decoded);
        let abs = crate::paths::join_path(root, &rel);
        let ok = crate::paths::is_descendant(canon_parent, canon_root);
        let mut current_path: Vec<u8> = Vec::new();
        append_bytes(&mut current_path, request.path.as_slice());
        proof {
            assert(current_path@ =~= request.path@);
        }
        if !ok {
            return not_found_response(current_path);
        }
        match target {
            ResolvedTarget::Missing => not_found_response(current_path),
            ResolvedTarget::RegularFile(content) => {
                let ctype = content_type_for(&abs, &content);
                let mut body: Vec<u8> = Vec::new();
                append_header(
                    &mut body,
                    ResponseStatus::OK,
                    AcceptRanges::Bytes,
                    content.len(),
                    Some(&ctype),
                );
                append_bytes(&mut body, content.as_slice());
                HttpResponse {
                    version: Version::V2_0,
                    status: ResponseStatus::OK,
                    content_length: content.len(),
                    accept_ranges: AcceptRanges::Bytes,
                    response_body: body,
                    current_path,
                }
            },
            ResolvedTarget::Directory(entries) => {
                let ghost entries0 = entries@;
                let sorted = sort_entries(entries);
                let lbody = build_listing_body(&abs, &rel, &sorted);
                let mut body: Vec<u8> = Vec::new();
                append_header(
                    &mut body,
                    ResponseStatus::OK,
                    AcceptRanges::Absent,
                    lbody.len(),
                    None,
                );
                append_bytes(&mut body, lbody.as_slice());
                let r = HttpResponse {
                    version: Version::V2_0,
                    status: ResponseStatus::OK,
                    content_length: lbody.len(),
                    accept_ranges: AcceptRanges::Absent,
                    response_body: body,
                    current_path,
                };
                proof {
                    let s = views_of(sorted@);
                    assert(s.to_multiset() == views_of(entries0).to_multiset()
                        && spec_entries_sorted(s) && r.accept_ranges == AcceptRanges::Absent
                        && r.content_length == spec_listing_body(abs@, rel@, s).len()
                        && r.response_body@ == spec_header(
                        ResponseStatus::OK,
                        AcceptRanges::Absent,
                        spec_listing_body(abs@, rel@, s).len(),
                        None,
                    ) + spec_listing_body(abs@, rel@, s));
                }
                r
            },
        }
    }
}

} // verus!
