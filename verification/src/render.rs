//! Serializing an HTTP response head onto a byte buffer.
//!
//! Each function appends exactly one CRLF-terminated line — a status line,
//! a header line, or the empty line that closes the head — to a buffer the
//! caller later writes to the connection in one piece.

use vstd::prelude::*;
use crate::codec::{CR, LF, SP, COLON};
use crate::digits::{dec_rep, u32_to_dec};
use crate::stats::StatusCode;

verus! {

/// The two bytes of a line break.
pub open spec fn crlf_rep() -> Seq<u8> {
    seq![CR, LF]
}

/// The bytes of `"HTTP/1.1 "`, the fixed prefix of every status line.
pub open spec fn http11_rep() -> Seq<u8> {
    seq![72u8, 84, 84, 80, 47, 49, 46, 49, 32]
}

/// The reason phrase for a status code: `"OK"`, `"Not Found"` or
/// `"Internal Server Error"` for the codes this system emits, `"Unknown"`
/// for any other.
pub open spec fn reason_rep(code: StatusCode) -> Seq<u8> {
    if code == 200 {
        seq![79u8, 75]
    } else if code == 404 {
        seq![78u8, 111, 116, 32, 70, 111, 117, 110, 100]
    } else if code == 500 {
        seq![73u8, 110, 116, 101, 114, 110, 97, 108, 32, 83, 101, 114, 118, 101, 114, 32, 69, 114,
            114, 111, 114]
    } else {
        seq![85u8, 110, 107, 110, 111, 119, 110]
    }
}

/// A whole status line: `"HTTP/1.1 <code> <reason>\r\n"`.
pub open spec fn status_line_rep(code: StatusCode) -> Seq<u8> {
    http11_rep() + dec_rep(code as nat) + seq![SP] + reason_rep(code) + crlf_rep()
}

/// A whole header line: `"<name>: <value>\r\n"`.
pub open spec fn header_line_rep(name: Seq<u8>, value: Seq<u8>) -> Seq<u8> {
    name + seq![COLON, SP] + value + crlf_rep()
}

/// Appends every byte of `s` to `out`.
pub fn push_bytes(out: &mut Vec<u8>, s: &[u8])
    ensures
        final(out)@ == old(out)@ + s@,
{
    let ghost start = out@;
    let mut i: usize = 0;
    while i < s.len()
        invariant
            i <= s@.len(),
            out@ =~= start + s@.subrange(0, i as int),
        decreases s@.len() - i,
    {
        out.push(s[i]);
        i = i + 1;
    }
    proof {
        assert(out@ =~= start + s@);
    }
}

/// The reason phrase the status line carries for `code`.
pub fn response_message(code: StatusCode) -> (r: Vec<u8>)
    ensures
        r@ == reason_rep(code),
{
    let a_ok: [u8; 2] = [79, 75];
    let a_nf: [u8; 9] = [78, 111, 116, 32, 70, 111, 117, 110, 100];
    let a_ise: [u8; 21] = [73, 110, 116, 101, 114, 110, 97, 108, 32, 83, 101, 114, 118, 101, 114,
        32, 69, 114, 114, 111, 114];
    let a_unk: [u8; 7] = [85, 110, 107, 110, 111, 119, 110];
    let r = if code == 200 {
        vstd::slice::slice_to_vec(a_ok.as_slice())
    } else if code == 404 {
        vstd::slice::slice_to_vec(a_nf.as_slice())
    } else if code == 500 {
        vstd::slice::slice_to_vec(a_ise.as_slice())
    } else {
        vstd::slice::slice_to_vec(a_unk.as_slice())
    };
    proof {
        assert(r@ =~= reason_rep(code));
    }
    r
}

/// Appends the status line for `code`: `"HTTP/1.1 <code> <reason>\r\n"`.
pub fn start_response(out: &mut Vec<u8>, code: StatusCode)
    ensures
        final(out)@ == old(out)@ + status_line_rep(code),
{
    let ghost start = out@;
    let a_http: [u8; 9] = [72, 84, 84, 80, 47, 49, 46, 49, 32];
    push_bytes(out, a_http.as_slice());
    let digits = u32_to_dec(code);
    push_bytes(out, digits.as_slice());
    out.push(SP);
    let reason = response_message(code);
    push_bytes(out, reason.as_slice());
    out.push(CR);
    out.push(LF);
    proof {
        assert(out@ =~= start + status_line_rep(code));
    }
}

/// Appends one header line: `"<name>: <value>\r\n"`.
pub fn send_header(out: &mut Vec<u8>, name: &[u8], value: &[u8])
    ensures
        final(out)@ == old(out)@ + header_line_rep(name@, value@),
{
    let ghost start = out@;
    push_bytes(out, name);
    out.push(COLON);
    out.push(SP);
    push_bytes(out, value);
    out.push(CR);
    out.push(LF);
    proof {
        assert(out@ =~= start + header_line_rep(name@, value@));
    }
}

/// Appends the empty line that separates the head from the body.
pub fn end_headers(out: &mut Vec<u8>)
    ensures
        final(out)@ == old(out)@ + crlf_rep(),
{
    let ghost start = out@;
    out.push(CR);
    out.push(LF);
    proof {
        assert(out@ =~= start + crlf_rep());
    }
}

} // verus!
