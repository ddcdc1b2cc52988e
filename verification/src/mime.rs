//! Content-type lookup: the MIME type a file is served with, derived from
//! its extension.
//!
//! The extension is the part of the last path segment after its last dot;
//! a file with no dot in its name has none.  Unrecognized extensions fall
//! back to `application/octet-stream`.

use vstd::prelude::*;
use crate::codec::{DOT, SLASH};
use crate::kv::bytes_eq;

verus! {

/// The position of the last `b` strictly before `upto`, or -1 if none.
pub open spec fn spec_rfind_byte(s: Seq<u8>, b: u8, upto: int) -> int
    decreases upto
        when 0 <= upto <= s.len()
{
    if upto <= 0 {
        -1
    } else if s[upto - 1] == b {
        upto - 1
    } else {
        spec_rfind_byte(s, b, upto - 1)
    }
}

/// The extension of the file a path names: what follows the last dot of
/// the last path segment, or the empty sequence when that segment has no
/// dot.
pub open spec fn extension_rep(path: Seq<u8>) -> Seq<u8> {
    let d = spec_rfind_byte(path, DOT, path.len() as int);
    let sl = spec_rfind_byte(path, SLASH, path.len() as int);
    if d >= 0 && d > sl {
        path.subrange(d + 1, path.len() as int)
    } else {
        Seq::empty()
    }
}

/// The MIME type for an extension.
pub open spec fn mime_for_extension(ext: Seq<u8>) -> Seq<u8> {
    if ext =~= seq![104u8, 116, 109, 108] {  // "html"
        seq![116u8, 101, 120, 116, 47, 104, 116, 109, 108]  // "text/html"
    } else if ext =~= seq![104u8, 116, 109] {  // "htm"
        seq![116u8, 101, 120, 116, 47, 104, 116, 109, 108]  // "text/html"
    } else if ext =~= seq![99u8, 115, 115] {  // "css"
        seq![116u8, 101, 120, 116, 47, 99, 115, 115]  // "text/css"
    } else if ext =~= seq![106u8, 115] {  // "js"
        // "application/javascript"
        seq![97u8, 112, 112, 108, 105, 99, 97, 116, 105, 111, 110, 47, 106, 97, 118, 97, 115, 99,
            114, 105, 112, 116]
    } else if ext =~= seq![112u8, 110, 103] {  // "png"
        seq![105u8, 109, 97, 103, 101, 47, 112, 110, 103]  // "image/png"
    } else if ext =~= seq![106u8, 112, 103] {  // "jpg"
        seq![105u8, 109, 97, 103, 101, 47, 106, 112, 101, 103]  // "image/jpeg"
    } else if ext =~= seq![106u8, 112, 101, 103] {  // "jpeg"
        seq![105u8, 109, 97, 103, 101, 47, 106, 112, 101, 103]  // "image/jpeg"
    } else if ext =~= seq![103u8, 105, 102] {  // "gif"
        seq![105u8, 109, 97, 103, 101, 47, 103, 105, 102]  // "image/gif"
    } else if ext =~= seq![116u8, 120, 116] {  // "txt"
        seq![116u8, 101, 120, 116, 47, 112, 108, 97, 105, 110]  // "text/plain"
    } else {
        // "application/octet-stream"
        seq![97u8, 112, 112, 108, 105, 99, 97, 116, 105, 111, 110, 47, 111, 99, 116, 101, 116, 45,
            115, 116, 114, 101, 97, 109]
    }
}

/// The MIME type a path is served with.
pub open spec fn mime_rep(path: Seq<u8>) -> Seq<u8> {
    mime_for_extension(extension_rep(path))
}

/// Finds the last `b` strictly before `upto`.
fn rfind_byte(s: &[u8], b: u8, upto: usize) -> (r: Option<usize>)
    requires
        upto <= s@.len(),
    ensures
        match r {
            Some(i) => i == spec_rfind_byte(s@, b, upto as int) && i < upto && s@[i as int] == b,
            None => spec_rfind_byte(s@, b, upto as int) == -1,
        },
{
    let mut i: usize = upto;
    loop
        invariant
            i <= upto <= s@.len(),
            spec_rfind_byte(s@, b, upto as int) == spec_rfind_byte(s@, b, i as int),
        decreases i,
    {
        if i == 0 {
            return None;
        }
        if s[i - 1] == b {
            return Some(i - 1);
        }
        proof {
            assert(spec_rfind_byte(s@, b, i as int) == spec_rfind_byte(s@, b, i - 1));
        }
        i = i - 1;
    }
}

/// The extension of the file `path` names, or an empty vector when its
/// last segment has no dot.
pub fn extension_of(path: &[u8]) -> (r: Vec<u8>)
    ensures
        r@ == extension_rep(path@),
{
    let d = rfind_byte(path, DOT, path.len());
    let sl = rfind_byte(path, SLASH, path.len());
    match d {
        Some(di) => {
            let keep = match sl {
                Some(si) => di > si,
                None => true,
            };
            if keep {
                let r = vstd::slice::slice_to_vec(
                    vstd::slice::slice_subrange(path, di + 1, path.len()));
                proof {
                    assert(r@ =~= extension_rep(path@));
                }
                r
            } else {
                Vec::new()
            }
        },
        None => Vec::new(),
    }
}

/// The MIME type `path` is served with, by its extension, with
/// `application/octet-stream` for anything unrecognized.
pub fn get_mime_type(path: &[u8]) -> (r: Vec<u8>)
    ensures
        r@ == mime_rep(path@),
{
    let ext = extension_of(path);
    let a_html: [u8; 4] = [104, 116, 109, 108];
    let a_htm: [u8; 3] = [104, 116, 109];
    let a_css: [u8; 3] = [99, 115, 115];
    let a_js: [u8; 2] = [106, 115];
    let a_png: [u8; 3] = [112, 110, 103];
    let a_jpg: [u8; 3] = [106, 112, 103];
    let a_jpeg: [u8; 4] = [106, 112, 101, 103];
    let a_gif: [u8; 3] = [103, 105, 102];
    let a_txt: [u8; 3] = [116, 120, 116];
    let m_html: [u8; 9] = [116, 101, 120, 116, 47, 104, 116, 109, 108];
    let m_css: [u8; 8] = [116, 101, 120, 116, 47, 99, 115, 115];
    let m_js: [u8; 22] = [97, 112, 112, 108, 105, 99, 97, 116, 105, 111, 110, 47, 106, 97, 118,
        97, 115, 99, 114, 105, 112, 116];
    let m_png: [u8; 9] = [105, 109, 97, 103, 101, 47, 112, 110, 103];
    let m_jpeg: [u8; 10] = [105, 109, 97, 103, 101, 47, 106, 112, 101, 103];
    let m_gif: [u8; 9] = [105, 109, 97, 103, 101, 47, 103, 105, 102];
    let m_txt: [u8; 10] = [116, 101, 120, 116, 47, 112, 108, 97, 105, 110];
    let m_bin: [u8; 24] = [97, 112, 112, 108, 105, 99, 97, 116, 105, 111, 110, 47, 111, 99, 116,
        101, 116, 45, 115, 116, 114, 101, 97, 109];
    let r = if bytes_eq(ext.as_slice(), a_html.as_slice()) {
        vstd::slice::slice_to_vec(m_html.as_slice())
    } else if bytes_eq(ext.as_slice(), a_htm.as_slice()) {
        vstd::slice::slice_to_vec(m_html.as_slice())
    } else if bytes_eq(ext.as_slice(), a_css.as_slice()) {
        vstd::slice::slice_to_vec(m_css.as_slice())
    } else if bytes_eq(ext.as_slice(), a_js.as_slice()) {
        vstd::slice::slice_to_vec(m_js.as_slice())
    } else if bytes_eq(ext.as_slice(), a_png.as_slice()) {
        vstd::slice::slice_to_vec(m_png.as_slice())
    } else if bytes_eq(ext.as_slice(), a_jpg.as_slice()) {
        vstd::slice::slice_to_vec(m_jpeg.as_slice())
    } else if bytes_eq(ext.as_slice(), a_jpeg.as_slice()) {
        vstd::slice::slice_to_vec(m_jpeg.as_slice())
    } else if bytes_eq(ext.as_slice(), a_gif.as_slice()) {
        vstd::slice::slice_to_vec(m_gif.as_slice())
    } else if bytes_eq(ext.as_slice(), a_txt.as_slice()) {
        vstd::slice::slice_to_vec(m_txt.as_slice())
    } else {
        vstd::slice::slice_to_vec(m_bin.as_slice())
    };
    proof {
        assert(r@ =~= mime_rep(path@));
    }
    r
}

} // verus!
