//! The request decoder: locating the request line in a raw byte buffer and
//! splitting it into method, target and version.

use vstd::prelude::*;

verus! {

use vstd::string::StringSliceAdditionalSpecFns;

/// The protocol version echoed back in the response.
#[derive(Clone, Copy, Debug, PartialEq, Eq, Structural)]
pub enum Version {
    V1_1,
    V2_0,
}

/// A failure while decoding a request.
#[derive(Clone, Copy, Debug, PartialEq, Eq, Structural)]
pub enum HttpError {
    /// No request line could be located in the buffer.
    MalformedRequest,
}

/// A decoded request. Only the target path drives the response; method and
/// version pass through undisturbed.
#[derive(Debug)]
pub struct HttpRequest {
    /// The method token, empty when the line held a single token.
    pub method: Vec<u8>,
    /// The target path, still percent-encoded as received.
    pub path: Vec<u8>,
    /// The protocol version named on the request line.
    pub version: Version,
}

/// The request line: every byte before the first carriage return, line
/// feed, or zero byte. Zero bytes end the line because the transport hands
/// over a fixed buffer whose tail may be zero padding.
pub open spec fn spec_request_line(s: Seq<u8>) -> Seq<u8>
    decreases s.len(),
{
    if s.len() == 0 {
        Seq::empty()
    } else if s[0] == 0x0d || s[0] == 0x0a || s[0] == 0x00 {
        Seq::empty()
    } else {
        seq![s[0]] + spec_request_line(s.skip(1))
    }
}

/// `s` with every leading space removed.
pub open spec fn spec_skip_spaces(s: Seq<u8>) -> Seq<u8>
    decreases s.len(),
{
    if s.len() > 0 && s[0] == 0x20 {
        spec_skip_spaces(s.skip(1))
    } else {
        s
    }
}

/// The leading run of non-space bytes of `s`.
pub open spec fn spec_token(s: Seq<u8>) -> Seq<u8>
    decreases s.len(),
{
    if s.len() == 0 {
        Seq::empty()
    } else if s[0] == 0x20 {
        Seq::empty()
    } else {
        seq![s[0]] + spec_token(s.skip(1))
    }
}

/// The first token of the request line in `buf`.
pub open spec fn spec_token1(buf: Seq<u8>) -> Seq<u8> {
    spec_token(spec_skip_spaces(spec_request_line(buf)))
}

/// What remains of the request line after its first token.
pub open spec fn spec_rest1(buf: Seq<u8>) -> Seq<u8> {
    spec_skip_spaces(spec_request_line(buf)).skip(spec_token1(buf).len() as int)
}

/// The second token of the request line in `buf`.
pub open spec fn spec_token2(buf: Seq<u8>) -> Seq<u8> {
    spec_token(spec_skip_spaces(spec_rest1(buf)))
}

/// What remains of the request line after its second token.
pub open spec fn spec_rest2(buf: Seq<u8>) -> Seq<u8> {
    spec_skip_spaces(spec_rest1(buf)).skip(spec_token2(buf).len() as int)
}

/// The third token of the request line in `buf`.
pub open spec fn spec_token3(buf: Seq<u8>) -> Seq<u8> {
    spec_token(spec_skip_spaces(spec_rest2(buf)))
}

/// The version named by a version token: `HTTP/2.0` exactly, else the
/// HTTP/1.x family.
pub open spec fn spec_version_of(tok: Seq<u8>) -> Version {
    if tok == crate::bytesutil::ascii_seq("HTTP/2.0"@) {
        Version::V2_0
    } else {
        Version::V1_1
    }
}

/// How a buffer decodes: no token at all is malformed; a single token is a
/// bare target; otherwise the tokens are method, target, and version.
pub open spec fn spec_decodes_to(buf: Seq<u8>, r: Result<HttpRequest, HttpError>) -> bool {
    if spec_token1(buf).len() == 0 {
        r == Result::<HttpRequest, HttpError>::Err(HttpError::MalformedRequest)
    } else if spec_token2(buf).len() == 0 {
        r matches Ok(req) && req.method@ == Seq::<u8>::empty() && req.path@ == spec_token1(buf)
            && req.version == Version::V1_1
    } else {
        r matches Ok(req) && req.method@ == spec_token1(buf) && req.path@ == spec_token2(buf)
            && req.version == spec_version_of(spec_token3(buf))
    }
}

/// Copies the request line out of `buf`.
fn request_line(buf: &Vec<u8>) -> (r: Vec<u8>)
    ensures
        r@ == spec_request_line(buf@),
{
    let mut r: Vec<u8> = Vec::new();
    let mut i: usize = 0;
    proof {
        assert(buf@.skip(0) =~= buf@);
        assert(r@ + spec_request_line(buf@) =~= spec_request_line(buf@));
    }
    while i < buf.len() && buf[i] != 0x0d && buf[i] != 0x0a && buf[i] != 0x00
        invariant
            i <= buf@.len(),
            r@ + spec_request_line(buf@.skip(i as int)) == spec_request_line(buf@),
            r@ == buf@.take(i as int),
        decreases buf@.len() - i,
    {
        proof {
            assert(buf@.skip(i as int)[0] == buf@[i as int]);
            assert(buf@.skip(i as int).skip(1) =~= buf@.skip(i + 1));
            assert(buf@.take(i + 1) =~= buf@.take(i as int).push(buf@[i as int]));
        }
        r.push(buf[i]);
        proof {
            assert(r@ + spec_request_line(buf@.skip(i + 1)) =~= spec_request_line(buf@));
        }
        i = i + 1;
    }
    proof {
        assert(spec_request_line(buf@.skip(i as int)) =~= Seq::<u8>::empty());
        assert(r@ =~= spec_request_line(buf@));
    }
    r
}

/// The index after the leading spaces from position `i` of `line`.
fn skip_spaces_from(line: &Vec<u8>, i: usize) -> (j: usize)
    requires
        i <= line@.len(),
    ensures
        i <= j <= line@.len(),
        spec_skip_spaces(line@.skip(i as int)) == line@.skip(j as int),
{
    let mut j: usize = i;
    while j < line.len() && line[j] == 0x20
        invariant
            i <= j <= line@.len(),
            spec_skip_spaces(line@.skip(i as int)) == spec_skip_spaces(line@.skip(j as int)),
        decreases line@.len() - j,
    {
        proof {
            assert(line@.skip(j as int)[0] == line@[j as int]);
            assert(line@.skip(j as int).skip(1) =~= line@.skip(j + 1));
        }
        j = j + 1;
    }
    proof {
        assert(spec_skip_spaces(line@.skip(j as int)) == line@.skip(j as int));
    }
    j
}

/// Copies the token that starts at position `i` of `line`, returning it and
/// the position just past it.
fn token_from(line: &Vec<u8>, i: usize) -> (r: (Vec<u8>, usize))
    requires
        i <= line@.len(),
    ensures
        i <= r.1 <= line@.len(),
        r.0@ == spec_token(line@.skip(i as int)),
        line@.skip(r.1 as int) == line@.skip(i as int).skip(r.0@.len() as int),
{
    let mut t: Vec<u8> = Vec::new();
    let mut j: usize = i;
    proof {
        assert(t@ + spec_token(line@.skip(i as int)) =~= spec_token(line@.skip(i as int)));
    }
    while j < line.len() && line[j] != 0x20
        invariant
            i <= j <= line@.len(),
            t@ == line@.subrange(i as int, j as int),
            t@ + spec_token(line@.skip(j as int)) == spec_token(line@.skip(i as int)),
        decreases line@.len() - j,
    {
        proof {
            assert(line@.skip(j as int)[0] == line@[j as int]);
            assert(line@.skip(j as int).skip(1) =~= line@.skip(j + 1));
            assert(line@.subrange(i as int, j + 1) =~= line@.subrange(i as int, j as int).push(
                line@[j as int],
            ));
        }
        t.push(line[j]);
        proof {
            assert(t@ + spec_token(line@.skip(j + 1)) =~= spec_token(line@.skip(i as int)));
        }
        j = j + 1;
    }
    proof {
        assert(spec_token(line@.skip(j as int)) =~= Seq::<u8>::empty());
        assert(t@ =~= spec_token(line@.skip(i as int)));
        assert(j - i == t@.len());
        assert(line@.skip(j as int) =~= line@.skip(i as int).skip(t@.len() as int));
    }
    (t, j)
}

impl HttpRequest {
    /// Decodes the raw buffer of one connection. Fails only when no request
    /// line can be located; every located line yields a request, its fields
    /// passed through as they stand.
    pub fn new(buf: &Vec<u8>) -> (r: Result<HttpRequest, HttpError>)
        ensures
            spec_decodes_to(buf@, r),
            spec_token1(buf@).len() == 0 <==> r is Err,
    {
        let line = request_line(buf);
        let ghost l = line@;
        let s1 = skip_spaces_from(&line, 0);
        proof {
            assert(l.skip(0) =~= l);
        }
        let (t1, e1) = token_from(&line, s1);
        if t1.len() == 0 {
            proof {
                assert(spec_token1(buf@).len() == 0);
            }
            return Err(HttpError::MalformedRequest);
        }
        proof {
            assert(t1@ == spec_token1(buf@));
            assert(line@.skip(e1 as int) == spec_rest1(buf@));
        }
        let s2 = skip_spaces_from(&line, e1);
        let (t2, e2) = token_from(&line, s2);
        proof {
            assert(t2@ == spec_token2(buf@));
        }
        if t2.len() == 0 {
            return Ok(
                HttpRequest { method: Vec::new(), path: t1, version: Version::V1_1 },
            );
        }
        proof {
            assert(line@.skip(e2 as int) == spec_rest2(buf@));
        }
        let s3 = skip_spaces_from(&line, e2);
        let (t3, _e3) = token_from(&line, s3);
        proof {
            assert(t3@ == spec_token3(buf@));
        }
        let mut v2: Vec<u8> = Vec::new();
        proof {
            reveal_strlit("HTTP/2.0");
            assert(vstd::string::is_ascii("HTTP/2.0"));
        }
        crate::bytesutil::append_ascii(&mut v2, "HTTP/2.0");
        let version = if crate::bytesutil::bytes_eq(&t3, &v2) {
            Version::V2_0
        } else {
            Version::V1_1
        };
        proof {
            assert(version == spec_version_of(spec_token3(buf@)));
        }
        Ok(HttpRequest { method: t1, path: t2, version })
    }
}

} // verus!
