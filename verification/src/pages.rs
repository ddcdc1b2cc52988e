//! Generated page bodies: directory listings and the statistics page.

use vstd::prelude::*;
use crate::codec::{CR, LF, COLON, SP, SLASH};
use crate::digits::{dec_rep, usize_to_dec};
use crate::render::{push_bytes, response_message, crlf_rep, reason_rep};
use crate::stats::StatusCode;

verus! {

/// One directory-listing anchor: `<a href="<path>"><name></a>` and a line
/// break.
pub open spec fn href_rep(path: Seq<u8>, name: Seq<u8>) -> Seq<u8> {
    seq![60u8, 97, 32, 104, 114, 101, 102, 61, 34] + path + seq![34u8, 62] + name + seq![60u8, 47,
        97, 62] + crlf_rep()
}

/// The listing body for a directory: one anchor per immediate child, in
/// the order the children were handed over.
pub open spec fn listing_rep(entries: Seq<(Seq<u8>, Seq<u8>)>) -> Seq<u8>
    decreases entries.len(),
{
    if entries.len() == 0 {
        Seq::empty()
    } else {
        href_rep(entries[0].0, entries[0].1) + listing_rep(entries.skip(1))
    }
}

/// One statistics line: `"<reason>: <count>\r\n"`.
pub open spec fn stats_line_rep(code: StatusCode, count: nat) -> Seq<u8> {
    reason_rep(code) + seq![COLON, SP] + dec_rep(count) + crlf_rep()
}

/// The statistics body: one line per `(code, count)` pair, in the order
/// the pairs were handed over.
pub open spec fn stats_body_rep(items: Seq<(StatusCode, usize)>) -> Seq<u8>
    decreases items.len(),
{
    if items.len() == 0 {
        Seq::empty()
    } else {
        stats_line_rep(items[0].0, items[0].1 as nat) + stats_body_rep(items.skip(1))
    }
}

/// The path of the index file inside a directory: the directory path with
/// `"/index.html"` appended.
pub open spec fn index_path_rep(dir: Seq<u8>) -> Seq<u8> {
    dir + seq![47u8, 105, 110, 100, 101, 120, 46, 104, 116, 109, 108]
}

/// Renders one directory-listing anchor for a child at `path` shown as
/// `name`.
pub fn format_href(path: &[u8], name: &[u8]) -> (r: Vec<u8>)
    ensures
        r@ == href_rep(path@, name@),
{
    let a_open: [u8; 9] = [60, 97, 32, 104, 114, 101, 102, 61, 34];
    let a_mid: [u8; 2] = [34, 62];
    let a_close: [u8; 4] = [60, 47, 97, 62];
    let mut out: Vec<u8> = Vec::new();
    push_bytes(&mut out, a_open.as_slice());
    push_bytes(&mut out, path);
    push_bytes(&mut out, a_mid.as_slice());
    push_bytes(&mut out, name);
    push_bytes(&mut out, a_close.as_slice());
    out.push(CR);
    out.push(LF);
    proof {
        assert(out@ =~= href_rep(path@, name@));
    }
    out
}

/// The index-file path for a directory.
pub fn format_index(dir: &[u8]) -> (r: Vec<u8>)
    ensures
        r@ == index_path_rep(dir@),
{
    let a_index: [u8; 11] = [47, 105, 110, 100, 101, 120, 46, 104, 116, 109, 108];
    let mut out: Vec<u8> = Vec::new();
    push_bytes(&mut out, dir);
    push_bytes(&mut out, a_index.as_slice());
    proof {
        assert(out@ =~= index_path_rep(dir@));
    }
    out
}

/// Renders the listing body for a directory's children, each child a
/// `(path, name)` pair, in the given order.
pub fn listing_body(entries: &Vec<(Vec<u8>, Vec<u8>)>) -> (r: Vec<u8>)
    ensures
        r@ == listing_rep(crate::codec::pairs_view(entries@)),
{
    let ghost all = crate::codec::pairs_view(entries@);
    let mut out: Vec<u8> = Vec::new();
    let mut i: usize = 0;
    proof {
        assert(all.skip(0) =~= all);
        assert(out@ + listing_rep(all) =~= listing_rep(all));
    }
    while i < entries.len()
        invariant
            i <= entries@.len(),
            all == crate::codec::pairs_view(entries@),
            out@ + listing_rep(all.skip(i as int)) =~= listing_rep(all),
        decreases entries@.len() - i,
    {
        let href = format_href(entries[i].0.as_slice(), entries[i].1.as_slice());
        push_bytes(&mut out, href.as_slice());
        proof {
            assert(all[i as int] == (entries@[i as int].0@, entries@[i as int].1@));
            assert(listing_rep(all.skip(i as int))
                =~= href_rep(all[i as int].0, all[i as int].1)
                    + listing_rep(all.skip(i as int).skip(1)));
            assert(all.skip(i as int).skip(1) =~= all.skip(i + 1));
            assert(out@ + listing_rep(all.skip(i + 1)) =~= listing_rep(all));
        }
        i = i + 1;
    }
    proof {
        assert(all.skip(i as int) =~= Seq::<(Seq<u8>, Seq<u8>)>::empty());
        assert(listing_rep(all.skip(i as int)) =~= Seq::<u8>::empty());
        assert(out@ =~= listing_rep(all));
    }
    out
}

/// Renders the statistics body for a snapshot of `(code, count)` pairs,
/// one line each, in the given order.
pub fn stats_body(items: &Vec<(StatusCode, usize)>) -> (r: Vec<u8>)
    ensures
        r@ == stats_body_rep(items@),
{
    let ghost all = items@;
    let mut out: Vec<u8> = Vec::new();
    let mut i: usize = 0;
    proof {
        assert(all.skip(0) =~= all);
        assert(out@ + stats_body_rep(all) =~= stats_body_rep(all));
    }
    while i < items.len()
        invariant
            i <= items@.len(),
            all == items@,
            out@ + stats_body_rep(all.skip(i as int)) =~= stats_body_rep(all),
        decreases items@.len() - i,
    {
        let (code, count) = items[i];
        let ghost out0 = out@;
        let reason = response_message(code);
        push_bytes(&mut out, reason.as_slice());
        out.push(COLON);
        out.push(SP);
        let digits = usize_to_dec(count);
        push_bytes(&mut out, digits.as_slice());
        out.push(CR);
        out.push(LF);
        proof {
            assert(out@ =~= out0 + stats_line_rep(code, count as nat));
            assert(stats_body_rep(all.skip(i as int))
                =~= stats_line_rep(all[i as int].0, all[i as int].1 as nat)
                    + stats_body_rep(all.skip(i as int).skip(1)));
            assert(all.skip(i as int).skip(1) =~= all.skip(i + 1));
            assert(out@ + stats_body_rep(all.skip(i + 1)) =~= stats_body_rep(all));
        }
        i = i + 1;
    }
    proof {
        assert(all.skip(i as int) =~= Seq::<(StatusCode, usize)>::empty());
        assert(stats_body_rep(all.skip(i as int)) =~= Seq::<u8>::empty());
        assert(out@ =~= stats_body_rep(all));
    }
    out
}

/// Prefixes a request path with `"."`, making it a path relative to the
/// served directory.
pub fn local_path_of(path: &[u8]) -> (r: Vec<u8>)
    ensures
        r@ == seq![46u8] + path@,
{
    let mut out: Vec<u8> = Vec::new();
    out.push(46);
    push_bytes(&mut out, path);
    proof {
        assert(out@ =~= seq![46u8] + path@);
    }
    out
}

/// Whether a request path is the statistics endpoint `"/stats"`.
pub fn is_stats_path(path: &[u8]) -> (r: bool)
    ensures
        r <==> path@ =~= seq![SLASH, 115u8, 116, 97, 116, 115],
{
    let a_stats: [u8; 6] = [47, 115, 116, 97, 116, 115];
    crate::kv::bytes_eq(path, a_stats.as_slice())
}

} // verus!
