//! The request-resolution state machine of the HTTP connection handler.
//!
//! A connection handler parses one request, probes the filesystem for the
//! requested path, and must then decide which response to send: the file
//! itself, a directory's index file, a directory listing, the statistics
//! page, a not-found or a server-error response.  That decision, the
//! response head it implies, and the bookkeeping in the status table are
//! made here, from a plain description of what the probe found; the probe
//! itself and all socket traffic stay with the caller.

use vstd::prelude::*;
use crate::codec::pairs_view;
use crate::digits::dec_rep;
use crate::mime::{mime_rep, get_mime_type};
use crate::pages::{index_path_rep, format_index, stats_body, stats_body_rep};
use crate::render::{status_line_rep, header_line_rep, crlf_rep, start_response, send_header,
    end_headers};
use crate::stats::{Stats, StatusCode, is_sorted_snapshot};
use crate::digits::u64_to_dec;

verus! {

/// What probing the filesystem for the requested path found.
#[derive(Clone, Copy, PartialEq, Eq, Structural, Debug)]
pub enum FsLookup {
    /// The path names a regular file of `size` bytes.
    File { size: u64 },
    /// The path names a directory holding an index file of `index_size`
    /// bytes.
    DirWithIndex { index_size: u64 },
    /// The path names a directory without an index file.
    DirNoIndex,
    /// Nothing exists at the path.
    Missing,
    /// The probe failed with some other filesystem error.
    IoError,
}

/// The body a response plan calls for.
pub enum BodyPlan {
    /// Stream the file at `path`, in bounded chunks.
    StreamFile { path: Vec<u8> },
    /// List the directory's immediate children, one anchor each.
    DirListing,
    /// Send exactly these bytes.
    Bytes { bytes: Vec<u8> },
    /// Send no body.
    Empty,
}

/// A planned response: status, header lines in order, and the body to
/// send after them.
pub struct ResponsePlan {
    pub status: StatusCode,
    pub headers: Vec<(Vec<u8>, Vec<u8>)>,
    pub body: BodyPlan,
}

/// The bytes of `"Content-Type"`.
pub open spec fn content_type_rep() -> Seq<u8> {
    seq![67u8, 111, 110, 116, 101, 110, 116, 45, 84, 121, 112, 101]
}

/// The bytes of `"Content-Length"`.
pub open spec fn content_length_rep() -> Seq<u8> {
    seq![67u8, 111, 110, 116, 101, 110, 116, 45, 76, 101, 110, 103, 116, 104]
}

/// The bytes of `"text/html"`.
pub open spec fn text_html_rep() -> Seq<u8> {
    seq![116u8, 101, 120, 116, 47, 104, 116, 109, 108]
}

/// The bytes of `"text/plain"`.
pub open spec fn text_plain_rep() -> Seq<u8> {
    seq![116u8, 101, 120, 116, 47, 112, 108, 97, 105, 110]
}

/// The status code each lookup outcome is answered with.
pub open spec fn status_for(lookup: FsLookup) -> StatusCode {
    match lookup {
        FsLookup::File { .. } => 200,
        FsLookup::DirWithIndex { .. } => 200,
        FsLookup::DirNoIndex => 200,
        FsLookup::Missing => 404,
        FsLookup::IoError => 500,
    }
}

/// The response owed for each lookup outcome at `local_path`: its status,
/// its exact header lines, and its body.
pub open spec fn plan_matches(p: ResponsePlan, local_path: Seq<u8>, lookup: FsLookup) -> bool {
    match lookup {
        FsLookup::File { size } => p.status == 200 && pairs_view(p.headers@) =~= seq![
            (content_type_rep(), mime_rep(local_path)),
            (content_length_rep(), dec_rep(size as nat)),
        ] && (p.body matches BodyPlan::StreamFile { path } && path@ == local_path),
        FsLookup::DirWithIndex { index_size } => p.status == 200 && pairs_view(p.headers@)
            =~= seq![
            (content_type_rep(), mime_rep(index_path_rep(local_path))),
            (content_length_rep(), dec_rep(index_size as nat)),
        ] && (p.body matches BodyPlan::StreamFile { path }
            && path@ == index_path_rep(local_path)),
        FsLookup::DirNoIndex => p.status == 200 && pairs_view(p.headers@) =~= seq![
            (content_type_rep(), text_html_rep()),
        ] && p.body is DirListing,
        FsLookup::Missing => p.status == 404 && p.headers@.len() == 0 && p.body is Empty,
        FsLookup::IoError => p.status == 500 && p.headers@.len() == 0 && p.body is Empty,
    }
}

/// Decides the response for a filesystem lookup outcome: a file is served
/// as-is with its MIME type and exact length, a directory through its
/// index file or as a listing, a missing path as 404, any other fault as
/// 500.
pub fn plan_response(local_path: &[u8], lookup: &FsLookup) -> (p: ResponsePlan)
    ensures
        plan_matches(p, local_path@, *lookup),
        p.status == status_for(*lookup),
{
    let ct: [u8; 12] = [67, 111, 110, 116, 101, 110, 116, 45, 84, 121, 112, 101];
    let cl: [u8; 14] = [67, 111, 110, 116, 101, 110, 116, 45, 76, 101, 110, 103, 116, 104];
    let html: [u8; 9] = [116, 101, 120, 116, 47, 104, 116, 109, 108];
    match lookup {
        FsLookup::File { size } => {
            let mut headers: Vec<(Vec<u8>, Vec<u8>)> = Vec::new();
            headers.push((vstd::slice::slice_to_vec(ct.as_slice()), get_mime_type(local_path)));
            headers.push((vstd::slice::slice_to_vec(cl.as_slice()), u64_to_dec(*size)));
            let body = BodyPlan::StreamFile { path: vstd::slice::slice_to_vec(local_path) };
            let p = ResponsePlan { status: 200, headers, body };
            proof {
                assert(pairs_view(p.headers@) =~= seq![
                    (content_type_rep(), mime_rep(local_path@)),
                    (content_length_rep(), dec_rep(*size as nat)),
                ]);
            }
            p
        },
        FsLookup::DirWithIndex { index_size } => {
            let index_path = format_index(local_path);
            let mut headers: Vec<(Vec<u8>, Vec<u8>)> = Vec::new();
            headers.push((vstd::slice::slice_to_vec(ct.as_slice()),
                get_mime_type(index_path.as_slice())));
            headers.push((vstd::slice::slice_to_vec(cl.as_slice()), u64_to_dec(*index_size)));
            let body = BodyPlan::StreamFile { path: index_path };
            let p = ResponsePlan { status: 200, headers, body };
            proof {
                assert(pairs_view(p.headers@) =~= seq![
                    (content_type_rep(), mime_rep(index_path_rep(local_path@))),
                    (content_length_rep(), dec_rep(*index_size as nat)),
                ]);
            }
            p
        },
        FsLookup::DirNoIndex => {
            let mut headers: Vec<(Vec<u8>, Vec<u8>)> = Vec::new();
            headers.push((vstd::slice::slice_to_vec(ct.as_slice()),
                vstd::slice::slice_to_vec(html.as_slice())));
            let p = ResponsePlan { status: 200, headers, body: BodyPlan::DirListing };
            proof {
                assert(pairs_view(p.headers@) =~= seq![
                    (content_type_rep(), text_html_rep()),
                ]);
            }
            p
        },
        FsLookup::Missing => {
            ResponsePlan { status: 404, headers: Vec::new(), body: BodyPlan::Empty }
        },
        FsLookup::IoError => {
            ResponsePlan { status: 500, headers: Vec::new(), body: BodyPlan::Empty }
        },
    }
}

/// Handles a non-statistics request once the filesystem has been probed:
/// decides the response and counts its status code in the status table,
/// exactly once.
pub fn handle_fs(stats: &mut Stats, local_path: &[u8], lookup: &FsLookup) -> (p: ResponsePlan)
    requires
        old(stats).well_formed(),
        old(stats).spec_count(status_for(*lookup)) < usize::MAX,
    ensures
        plan_matches(p, local_path@, *lookup),
        p.status == status_for(*lookup),
        final(stats).well_formed(),
        final(stats)@ == old(stats)@.insert(status_for(*lookup),
            (old(stats).spec_count(status_for(*lookup)) + 1) as usize),
{
    let p = plan_response(local_path, lookup);
    stats.incr(p.status);
    p
}

/// Handles a `/stats` request: a plain-text page with one line per
/// recorded status code, in ascending code order.  Viewing the page does
/// not count as a tracked request, so the table is read, never changed.
pub fn handle_stats(stats: &Stats) -> (p: ResponsePlan)
    requires
        stats.well_formed(),
    ensures
        p.status == 200,
        pairs_view(p.headers@) =~= seq![(content_type_rep(), text_plain_rep())],
        (p.body matches BodyPlan::Bytes { bytes } && exists|its: Seq<(StatusCode, usize)>|
            is_sorted_snapshot(stats@, its) && bytes@ == stats_body_rep(its)),
{
    let ct: [u8; 12] = [67, 111, 110, 116, 101, 110, 116, 45, 84, 121, 112, 101];
    let plain: [u8; 10] = [116, 101, 120, 116, 47, 112, 108, 97, 105, 110];
    let items = stats.items();
    let bytes = stats_body(&items);
    let mut headers: Vec<(Vec<u8>, Vec<u8>)> = Vec::new();
    headers.push((vstd::slice::slice_to_vec(ct.as_slice()),
        vstd::slice::slice_to_vec(plain.as_slice())));
    let p = ResponsePlan { status: 200, headers, body: BodyPlan::Bytes { bytes } };
    proof {
        assert(pairs_view(p.headers@) =~= seq![(content_type_rep(), text_plain_rep())]);
        assert(is_sorted_snapshot(stats@, items@));
    }
    p
}

/// The bytes of a whole head: status line, header lines in order, and the
/// closing empty line.
pub open spec fn headers_rep(hs: Seq<(Seq<u8>, Seq<u8>)>) -> Seq<u8>
    decreases hs.len(),
{
    if hs.len() == 0 {
        Seq::empty()
    } else {
        header_line_rep(hs[0].0, hs[0].1) + headers_rep(hs.skip(1))
    }
}

/// The bytes of a response head for a status and its header lines.
pub open spec fn head_rep(status: StatusCode, hs: Seq<(Seq<u8>, Seq<u8>)>) -> Seq<u8> {
    status_line_rep(status) + headers_rep(hs) + crlf_rep()
}

/// Renders the head a plan calls for: its status line, each of its header
/// lines in order, and the empty line that closes the head.
pub fn render_head(plan: &ResponsePlan) -> (r: Vec<u8>)
    ensures
        r@ == head_rep(plan.status, pairs_view(plan.headers@)),
{
    let ghost all = pairs_view(plan.headers@);
    let mut out: Vec<u8> = Vec::new();
    start_response(&mut out, plan.status);
    let mut i: usize = 0;
    proof {
        assert(all.skip(0) =~= all);
        assert(out@ =~= status_line_rep(plan.status));
        assert(out@ + headers_rep(all.skip(0)) =~= status_line_rep(plan.status)
            + headers_rep(all));
    }
    while i < plan.headers.len()
        invariant
            i <= plan.headers@.len(),
            all == pairs_view(plan.headers@),
            out@ + headers_rep(all.skip(i as int)) =~= status_line_rep(plan.status)
                + headers_rep(all),
        decreases plan.headers@.len() - i,
    {
        send_header(&mut out, plan.headers[i].0.as_slice(), plan.headers[i].1.as_slice());
        proof {
            assert(all[i as int] == (plan.headers@[i as int].0@, plan.headers@[i as int].1@));
            assert(headers_rep(all.skip(i as int))
                =~= header_line_rep(all[i as int].0, all[i as int].1)
                    + headers_rep(all.skip(i as int).skip(1)));
            assert(all.skip(i as int).skip(1) =~= all.skip(i + 1));
            assert(out@ + headers_rep(all.skip(i + 1)) =~= status_line_rep(plan.status)
                + headers_rep(all));
        }
        i = i + 1;
    }
    end_headers(&mut out);
    proof {
        assert(all.skip(i as int) =~= Seq::<(Seq<u8>, Seq<u8>)>::empty());
        assert(headers_rep(all.skip(i as int)) =~= Seq::<u8>::empty());
        assert(out@ =~= head_rep(plan.status, all));
    }
    out
}

} // verus!
