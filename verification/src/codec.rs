//! The HTTP request codec: parsing a request head from bytes.
//!
//! A request head is a request line `METHOD SP PATH SP VERSION CRLF`
//! followed by zero or more `Name: Value CRLF` header lines and a closing
//! empty line.  The parser takes the raw bytes of one head — everything up
//! to and including the empty line — and either yields the decoded request
//! or rejects the head as malformed.  Reading those bytes off a socket is
//! the caller's business.

use vstd::prelude::*;
use vstd::slice::{slice_subrange, slice_to_vec};

verus! {

pub const CR: u8 = 13;
pub const LF: u8 = 10;
pub const SP: u8 = 32;
pub const COLON: u8 = 58;
pub const SLASH: u8 = 47;
pub const DOT: u8 = 46;

/// A decoded HTTP request head.
#[derive(Debug, PartialEq, Eq)]
pub struct Request {
    pub method: Vec<u8>,
    pub path: Vec<u8>,
    pub version: Vec<u8>,
    pub headers: Vec<(Vec<u8>, Vec<u8>)>,
}

/// The mathematical reading of a request head.
#[verifier::ext_equal]
pub ghost struct RequestView {
    pub method: Seq<u8>,
    pub path: Seq<u8>,
    pub version: Seq<u8>,
    pub headers: Seq<(Seq<u8>, Seq<u8>)>,
}

impl View for Request {
    type V = RequestView;

    open spec fn view(&self) -> RequestView {
        RequestView {
            method: self.method@,
            path: self.path@,
            version: self.version@,
            headers: pairs_view(self.headers@),
        }
    }
}

/// Pairs of byte vectors — header lines, directory entries — with both
/// columns read as byte sequences.
pub open spec fn pairs_view(hs: Seq<(Vec<u8>, Vec<u8>)>) -> Seq<(Seq<u8>, Seq<u8>)> {
    hs.map_values(|p: (Vec<u8>, Vec<u8>)| (p.0@, p.1@))
}

/// Why a request head was rejected.
#[derive(PartialEq, Eq, Structural, Clone, Copy, Debug)]
pub enum HttpError {
    /// The request line or a header line cannot be decoded.
    MalformedRequest,
}

/// A CRLF pair starts at position `i`.
pub open spec fn crlf_at(s: Seq<u8>, i: int) -> bool {
    0 <= i && i + 2 <= s.len() && s[i] == CR && s[i + 1] == LF
}

/// The position of the first CRLF at or after `from`, or -1 if there is none.
pub open spec fn spec_find_crlf(s: Seq<u8>, from: int) -> int
    decreases s.len() - from
        when 0 <= from <= s.len()
{
    if from + 2 > s.len() {
        -1
    } else if s[from] == CR && s[from + 1] == LF {
        from
    } else {
        spec_find_crlf(s, from + 1)
    }
}

/// The position of the first `b` at or after `from`, or -1 if there is none.
pub open spec fn spec_find_byte(s: Seq<u8>, b: u8, from: int) -> int
    decreases s.len() - from
        when 0 <= from <= s.len()
{
    if from >= s.len() {
        -1
    } else if s[from] == b {
        from
    } else {
        spec_find_byte(s, b, from + 1)
    }
}

/// What `spec_find_crlf` returns: -1 when no CRLF follows, else the first
/// position of one.
pub proof fn lemma_find_crlf(s: Seq<u8>, from: int)
    requires
        0 <= from <= s.len(),
    ensures
        spec_find_crlf(s, from) == -1 ==> forall|j: int| from <= j ==> !crlf_at(s, j),
        spec_find_crlf(s, from) >= 0 ==> from <= spec_find_crlf(s, from)
            && crlf_at(s, spec_find_crlf(s, from))
            && forall|j: int| from <= j < spec_find_crlf(s, from) ==> !crlf_at(s, j),
    decreases s.len() - from,
{
    if from + 2 > s.len() {
    } else if s[from] == CR && s[from + 1] == LF {
    } else {
        lemma_find_crlf(s, from + 1);
    }
}

/// The parts of a request line: method, path and version, split at the
/// first two spaces, with all three non-empty and the path absolute.
#[verifier::ext_equal]
pub ghost struct RequestLineView {
    pub method: Seq<u8>,
    pub path: Seq<u8>,
    pub version: Seq<u8>,
}

/// Splits a request line (without its CRLF) into method, path and version.
pub open spec fn spec_split_request_line(line: Seq<u8>) -> Option<RequestLineView> {
    let i = spec_find_byte(line, SP, 0);
    if i < 0 {
        None
    } else {
        let j = spec_find_byte(line, SP, i + 1);
        if j < 0 {
            None
        } else {
            let method = line.subrange(0, i);
            let path = line.subrange(i + 1, j);
            let version = line.subrange(j + 1, line.len() as int);
            if method.len() > 0 && path.len() > 0 && path[0] == SLASH && version.len() > 0 {
                Some(RequestLineView { method, path, version })
            } else {
                None
            }
        }
    }
}

/// Splits one header line (without its CRLF) at the first colon; a single
/// space after the colon is not part of the value.
pub open spec fn spec_split_header(line: Seq<u8>) -> Option<(Seq<u8>, Seq<u8>)> {
    let i = spec_find_byte(line, COLON, 0);
    if i < 0 {
        None
    } else {
        let name = line.subrange(0, i);
        let rest = line.subrange(i + 1, line.len() as int);
        if rest.len() > 0 && rest[0] == SP {
            Some((name, rest.subrange(1, rest.len() as int)))
        } else {
            Some((name, rest))
        }
    }
}

/// Parses the header section that starts at `from`: header lines up to an
/// empty line that must close the input.
pub open spec fn spec_parse_headers(s: Seq<u8>, from: int) -> Option<Seq<(Seq<u8>, Seq<u8>)>>
    decreases s.len() - from
        when 0 <= from <= s.len()
        via spec_parse_headers_decreases
{
    if from + 2 <= s.len() && s[from] == CR && s[from + 1] == LF {
        if from + 2 == s.len() {
            Some(Seq::empty())
        } else {
            None
        }
    } else {
        let e = spec_find_crlf(s, from);
        if e < 0 {
            None
        } else {
            match spec_split_header(s.subrange(from, e)) {
                None => None,
                Some(h) => match spec_parse_headers(s, e + 2) {
                    None => None,
                    Some(rest) => Some(seq![h] + rest),
                },
            }
        }
    }
}

#[via_fn]
proof fn spec_parse_headers_decreases(s: Seq<u8>, from: int) {
    lemma_find_crlf(s, from);
}

/// Parses a whole request head: request line, header lines, closing empty
/// line, with nothing after it.
pub open spec fn spec_parse_request(s: Seq<u8>) -> Option<RequestView> {
    let e = spec_find_crlf(s, 0);
    if e < 0 {
        None
    } else {
        match spec_split_request_line(s.subrange(0, e)) {
            None => None,
            Some(rl) => match spec_parse_headers(s, e + 2) {
                None => None,
                Some(hs) => Some(
                    RequestView {
                        method: rl.method,
                        path: rl.path,
                        version: rl.version,
                        headers: hs,
                    },
                ),
            },
        }
    }
}

/// Finds the first CRLF at or after `from`.
pub fn find_crlf(s: &[u8], from: usize) -> (r: Option<usize>)
    requires
        from <= s@.len(),
    ensures
        match r {
            Some(i) => i == spec_find_crlf(s@, from as int) && from <= i && crlf_at(s@, i as int),
            None => spec_find_crlf(s@, from as int) == -1,
        },
{
    let mut i: usize = from;
    loop
        invariant
            from <= i <= s@.len(),
            spec_find_crlf(s@, from as int) == spec_find_crlf(s@, i as int),
        decreases s@.len() - i,
    {
        if i >= s.len() {
            return None;
        }
        if i + 1 >= s.len() {
            return None;
        }
        if s[i] == CR && s[i + 1] == LF {
            return Some(i);
        }
        proof {
            assert(spec_find_crlf(s@, i as int) == spec_find_crlf(s@, i + 1));
        }
        i = i + 1;
    }
}

/// Finds the first `b` at or after `from`.
pub fn find_byte(s: &[u8], b: u8, from: usize) -> (r: Option<usize>)
    requires
        from <= s@.len(),
    ensures
        match r {
            Some(i) => i == spec_find_byte(s@, b, from as int) && from <= i < s@.len()
                && s@[i as int] == b,
            None => spec_find_byte(s@, b, from as int) == -1,
        },
{
    let mut i: usize = from;
    loop
        invariant
            from <= i <= s@.len(),
            spec_find_byte(s@, b, from as int) == spec_find_byte(s@, b, i as int),
        decreases s@.len() - i,
    {
        if i >= s.len() {
            return None;
        }
        if s[i] == b {
            return Some(i);
        }
        proof {
            assert(spec_find_byte(s@, b, i as int) == spec_find_byte(s@, b, i + 1));
        }
        i = i + 1;
    }
}

/// Decodes one request head, or rejects it as malformed.
pub fn parse_request(head: &[u8]) -> (r: Result<Request, HttpError>)
    ensures
        match r {
            Ok(req) => spec_parse_request(head@) == Some(req@),
            Err(e) => e == HttpError::MalformedRequest && spec_parse_request(head@) is None,
        },
{
    let n = head.len();
    let e = match find_crlf(head, 0) {
        Some(i) => i,
        None => {
            return Err(HttpError::MalformedRequest);
        },
    };
    let line = slice_subrange(head, 0, e);
    let i = match find_byte(line, SP, 0) {
        Some(i) => i,
        None => {
            return Err(HttpError::MalformedRequest);
        },
    };
    let j = match find_byte(line, SP, i + 1) {
        Some(j) => j,
        None => {
            return Err(HttpError::MalformedRequest);
        },
    };
    let method = slice_to_vec(slice_subrange(line, 0, i));
    let path = slice_to_vec(slice_subrange(line, i + 1, j));
    let version = slice_to_vec(slice_subrange(line, j + 1, line.len()));
    if method.len() == 0 || path.len() == 0 || path[0] != SLASH || version.len() == 0 {
        return Err(HttpError::MalformedRequest);
    }
    proof {
        assert(spec_split_request_line(head@.subrange(0, e as int))
            == Some(RequestLineView { method: method@, path: path@, version: version@ }));
    }
    let mut headers: Vec<(Vec<u8>, Vec<u8>)> = Vec::new();
    let ghost hdr_start = e + 2;
    let mut pos: usize = e + 2;
    loop
        invariant
            n == head@.len(),
            hdr_start <= pos <= head@.len(),
            hdr_start == e + 2,
            e + 2 <= head@.len(),
            spec_find_crlf(head@, 0) == e,
            spec_split_request_line(head@.subrange(0, e as int))
                == Some(RequestLineView { method: method@, path: path@, version: version@ }),
            (spec_parse_headers(head@, hdr_start as int) is Some
                <==> spec_parse_headers(head@, pos as int) is Some),
            spec_parse_headers(head@, pos as int) is Some
                ==> spec_parse_headers(head@, hdr_start as int).unwrap()
                    =~= pairs_view(headers@) + spec_parse_headers(head@, pos as int).unwrap(),
        decreases head@.len() - pos,
    {
        if pos < n && pos + 1 < n && head[pos] == CR && head[pos + 1] == LF {
            if pos + 2 == n {
                // the closing empty line ends the head exactly
                let req = Request { method, path, version, headers };
                proof {
                    assert(spec_parse_headers(head@, pos as int) == Some(
                        Seq::<(Seq<u8>, Seq<u8>)>::empty()));
                    assert(spec_parse_headers(head@, hdr_start as int).unwrap()
                        =~= pairs_view(headers@));
                    assert(spec_parse_request(head@).unwrap() =~= req@);
                    assert(spec_parse_request(head@) == Some(req@));
                }
                return Ok(req);
            } else {
                proof {
                    assert(spec_parse_headers(head@, pos as int) is None);
                    assert(spec_parse_headers(head@, hdr_start as int) is None);
                    assert(spec_parse_request(head@) is None);
                }
                return Err(HttpError::MalformedRequest);
            }
        }
        let e2 = match find_crlf(head, pos) {
            Some(i) => i,
            None => {
                proof {
                    assert(spec_parse_headers(head@, pos as int) is None);
                    assert(spec_parse_headers(head@, hdr_start as int) is None);
                    assert(spec_parse_request(head@) is None);
                }
                return Err(HttpError::MalformedRequest);
            },
        };
        let lineh = slice_subrange(head, pos, e2);
        let ci = match find_byte(lineh, COLON, 0) {
            Some(i) => i,
            None => {
                proof {
                    assert(spec_split_header(head@.subrange(pos as int, e2 as int)) is None);
                    assert(spec_parse_headers(head@, pos as int) is None);
                    assert(spec_parse_headers(head@, hdr_start as int) is None);
                    assert(spec_parse_request(head@) is None);
                }
                return Err(HttpError::MalformedRequest);
            },
        };
        let name = slice_to_vec(slice_subrange(lineh, 0, ci));
        let rest = slice_subrange(lineh, ci + 1, lineh.len());
        let value = if rest.len() > 0 && rest[0] == SP {
            slice_to_vec(slice_subrange(rest, 1, rest.len()))
        } else {
            slice_to_vec(rest)
        };
        proof {
            assert(spec_split_header(head@.subrange(pos as int, e2 as int))
                == Some((name@, value@)));
        }
        let ghost headers0 = headers@;
        headers.push((name, value));
        proof {
            assert(pairs_view(headers@)
                =~= pairs_view(headers0) + seq![(name@, value@)]);
            if spec_parse_headers(head@, e2 + 2) is Some {
                assert(spec_parse_headers(head@, pos as int).unwrap()
                    =~= seq![(name@, value@)] + spec_parse_headers(head@, e2 + 2).unwrap());
                assert(spec_parse_headers(head@, hdr_start as int).unwrap()
                    =~= pairs_view(headers@) + spec_parse_headers(head@, e2 + 2).unwrap());
            }
        }
        pos = e2 + 2;
    }
}

} // verus!
