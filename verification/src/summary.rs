//! The request summarizer: a pure, total transformation from the raw fields
//! of one inbound HTTP request (method, path with query, client address,
//! ordered header pairs, body bytes) to a bounded [`ReqSummary`] ready for
//! the logging sink.
//!
//! Headers are flattened to one `name: value` line joined by `", "`, with a
//! fixed placeholder for values that are not renderable as text; the body is
//! cut to a byte limit first and only then decoded, lossily, so truncation
//! is decided by byte length alone and no input can make summarization fail.

use vstd::prelude::*;
use vstd::string::StringExecFns;
use vstd::slice::slice_subrange;

use crate::utf8_lossy::{lossy_decode, lossy_utf8_decode};

verus! {

/// One header pair as seen by the handler: the name, and the value when it
/// is renderable as text (`None` stands for a value that is not).
pub struct Header {
    pub name: String,
    pub value: Option<String>,
}

/// Separator between rendered header pairs.
pub open spec fn comma_space() -> Seq<char> {
    seq![',', ' ']
}

/// Separator between a header name and its value.
pub open spec fn colon_space() -> Seq<char> {
    seq![':', ' ']
}

/// Fixed placeholder substituted for a header value that is not renderable
/// as text.
pub open spec fn non_utf8_placeholder() -> Seq<char> {
    seq!['<', 'n', 'o', 'n', '-', 'u', 't', 'f', '8', '>']
}

/// Rendering of one header pair: `name: value`, with the placeholder for a
/// non-text value.
pub open spec fn render_header(h: Header) -> Seq<char> {
    h.name@ + colon_space() + (match h.value {
        Some(v) => v@,
        None => non_utf8_placeholder(),
    })
}

/// Rendering of a whole header collection: every pair, in input order, with
/// no deduplication and no case normalization, joined by `", "`. Empty input
/// renders as the empty string.
pub open spec fn render_headers(hs: Seq<Header>) -> Seq<char>
    decreases hs.len(),
{
    if hs.len() == 0 {
        Seq::empty()
    } else if hs.len() == 1 {
        render_header(hs[0])
    } else {
        render_header(hs[0]) + comma_space() + render_headers(hs.drop_first())
    }
}

/// Appending one pair extends the rendering at the end, after a separator
/// when the collection was not empty.
proof fn lemma_render_headers_push(hs: Seq<Header>, h: Header)
    ensures
        hs.len() == 0 ==> render_headers(hs.push(h)) == render_header(h),
        hs.len() > 0 ==> render_headers(hs.push(h)) == render_headers(hs) + comma_space()
            + render_header(h),
    decreases hs.len(),
{
    let pushed = hs.push(h);
    if hs.len() == 0 {
        assert(pushed.len() == 1 && pushed[0] == h);
    } else {
        assert(pushed[0] == hs[0]);
        assert(pushed.drop_first() =~= hs.drop_first().push(h));
        lemma_render_headers_push(hs.drop_first(), h);
        assert(render_headers(pushed) =~= render_headers(hs) + comma_space() + render_header(h));
    }
}

/// Serializes the header collection to a single line: each pair rendered as
/// `name: value` (placeholder for non-text values), all pairs in input
/// order, joined by `", "`.
pub fn headers_to_string(headers: &Vec<Header>) -> (r: String)
    ensures
        r@ == render_headers(headers@),
{
    let mut out = String::new();
    let mut i: usize = 0;
    proof {
        assert(headers@.take(0) =~= Seq::<Header>::empty());
    }
    while i < headers.len()
        invariant
            i <= headers@.len(),
            out@ == render_headers(headers@.take(i as int)),
        decreases headers@.len() - i,
    {
        if i > 0 {
            out.append(", ");
        }
        let h = &headers[i];
        out.append(h.name.as_str());
        out.append(": ");
        match &h.value {
            Some(v) => out.append(v.as_str()),
            None => out.append("<non-utf8>"),
        }
        proof {
            reveal_strlit(", ");
            reveal_strlit(": ");
            reveal_strlit("<non-utf8>");
            assert(", "@ =~= comma_space());
            assert(": "@ =~= colon_space());
            assert("<non-utf8>"@ =~= non_utf8_placeholder());
            lemma_render_headers_push(headers@.take(i as int), headers@[i as int]);
            assert(headers@.take(i as int).push(headers@[i as int]) =~= headers@.take(
                i as int + 1,
            ));
            assert(out@ =~= render_headers(headers@.take(i as int + 1)));
        }
        i = i + 1;
    }
    proof {
        assert(headers@.take(headers@.len() as int) =~= headers@);
    }
    out
}

/// Position in the rendered header line at which the `i`-th pair's rendering
/// begins: right after the rendering of the pairs before it and, past the
/// first pair, after one separator.
pub open spec fn header_start(hs: Seq<Header>, i: int) -> int {
    if i == 0 {
        0
    } else {
        render_headers(hs.take(i)).len() + comma_space().len() as int
    }
}

/// Cutting the collection anywhere in the middle splits the rendering at a
/// separator.
proof fn lemma_render_headers_split(hs: Seq<Header>, i: int)
    requires
        0 < i < hs.len(),
    ensures
        render_headers(hs) == render_headers(hs.take(i)) + comma_space() + render_headers(
            hs.skip(i),
        ),
    decreases i,
{
    let d = hs.drop_first();
    if i == 1 {
        assert(hs.take(1) =~= seq![hs[0]]);
        assert(hs.skip(1) =~= d);
        assert(render_headers(hs) =~= render_headers(hs.take(1)) + comma_space() + render_headers(
            hs.skip(1),
        ));
    } else {
        lemma_render_headers_split(d, i - 1);
        assert(hs.take(i)[0] == hs[0]);
        assert(hs.take(i).drop_first() =~= d.take(i - 1));
        assert(hs.skip(i) =~= d.skip(i - 1));
        assert(render_headers(hs) =~= render_headers(hs.take(i)) + comma_space() + render_headers(
            hs.skip(i),
        ));
    }
}

/// Law: the rendered header line contains, for every pair of the input, that
/// pair's own `name: value` rendering, exactly at [`header_start`].
pub proof fn lemma_render_headers_complete(hs: Seq<Header>, i: int)
    requires
        0 <= i < hs.len(),
    ensures
        0 <= header_start(hs, i),
        header_start(hs, i) + render_header(hs[i]).len() <= render_headers(hs).len(),
        render_headers(hs).subrange(
            header_start(hs, i),
            header_start(hs, i) + render_header(hs[i]).len(),
        ) == render_header(hs[i]),
{
    let r = render_headers(hs);
    let p = render_header(hs[i]);
    let s = header_start(hs, i);
    if i == 0 {
        if hs.len() == 1 {
            assert(r.subrange(0, p.len() as int) =~= p);
        } else {
            assert(r == p + comma_space() + render_headers(hs.drop_first()));
            assert(r.subrange(0, p.len() as int) =~= p);
        }
    } else {
        lemma_render_headers_split(hs, i);
        let rest = hs.skip(i);
        assert(rest[0] == hs[i]);
        if rest.len() == 1 {
            assert(render_headers(rest) == p);
        } else {
            assert(render_headers(rest) == p + comma_space() + render_headers(rest.drop_first()));
        }
        assert(r.subrange(s, s + p.len() as int) =~= p);
    }
}

/// Law: the pairs appear in the rendered line in input order — a later pair
/// begins strictly later.
pub proof fn lemma_header_start_increasing(hs: Seq<Header>, i: int, j: int)
    requires
        0 <= i < j < hs.len(),
    ensures
        header_start(hs, i) < header_start(hs, j),
{
    if i == 0 {
        assert(header_start(hs, j) >= comma_space().len());
    } else {
        let ti = hs.take(i);
        let tj = hs.take(j);
        assert(tj.take(i) =~= ti);
        lemma_render_headers_split(tj, i);
        assert(render_headers(tj).len() >= render_headers(ti).len() + comma_space().len());
    }
}

/// Number of body bytes that reach the decoder: the whole body when it fits
/// the limit, otherwise exactly the limit.
pub open spec fn preview_limit(body_len: nat, max: nat) -> int {
    if body_len <= max {
        body_len as int
    } else {
        max as int
    }
}

/// Byte-level truncation of the body, the first of the two preview steps:
/// the first `max` bytes, or all of them when the body is no longer.
pub fn truncate_body<'a>(body: &'a [u8], max: usize) -> (r: &'a [u8])
    ensures
        r@ == body@.take(preview_limit(body@.len(), max as nat)),
{
    let n = if body.len() <= max {
        body.len()
    } else {
        max
    };
    let r = slice_subrange(body, 0, n);
    proof {
        assert(r@ =~= body@.take(n as int));
    }
    r
}

/// The bounded, structured summary of one request, produced once per request
/// and handed to the logging sink.
pub struct ReqSummary {
    pub method: String,
    pub path: String,
    pub ip: String,
    pub headers: String,
    pub body_preview: String,
    pub truncated: bool,
}

/// Mathematical image of a [`ReqSummary`].
pub ghost struct ReqSummaryView {
    pub method: Seq<char>,
    pub path: Seq<char>,
    pub ip: Seq<char>,
    pub headers: Seq<char>,
    pub body_preview: Seq<char>,
    pub truncated: bool,
}

impl View for ReqSummary {
    type V = ReqSummaryView;

    open spec fn view(&self) -> ReqSummaryView {
        ReqSummaryView {
            method: self.method@,
            path: self.path@,
            ip: self.ip@,
            headers: self.headers@,
            body_preview: self.body_preview@,
            truncated: self.truncated,
        }
    }
}

/// What summarization returns, as a function of the request fields alone:
/// method, path and address pass through verbatim; headers are flattened in
/// input order; the preview is the lossy decoding of the truncated body; the
/// truncation flag follows the original byte length only.
pub open spec fn summary_spec(
    method: Seq<char>,
    path: Seq<char>,
    ip: Seq<char>,
    headers: Seq<Header>,
    body: Seq<u8>,
    max: nat,
) -> ReqSummaryView {
    ReqSummaryView {
        method: method,
        path: path,
        ip: ip,
        headers: render_headers(headers),
        body_preview: lossy_decode(body.take(preview_limit(body.len(), max))),
        truncated: body.len() > max,
    }
}

/// Summarizes one request. Total: every method, path, address, header
/// collection and body — empty, binary or invalid UTF-8 — yields a summary,
/// and the result is pinned to [`summary_spec`] of the inputs.
pub fn summarize_request(
    method: &str,
    path: &str,
    ip: &str,
    headers: &Vec<Header>,
    body: &[u8],
    max: usize,
) -> (r: ReqSummary)
    ensures
        r@ == summary_spec(method@, path@, ip@, headers@, body@, max as nat),
{
    let headers_line = headers_to_string(headers);
    let preview_bytes = truncate_body(body, max);
    let body_preview = lossy_utf8_decode(preview_bytes);
    let truncated = body.len() > max;
    ReqSummary {
        method: method.to_owned(),
        path: path.to_owned(),
        ip: ip.to_owned(),
        headers: headers_line,
        body_preview,
        truncated,
    }
}

/// The handler's summarization step: every request, whatever its method or
/// path, is summarized with the fixed preview limit.
pub fn capture_request(
    method: &str,
    path: &str,
    ip: &str,
    headers: &Vec<Header>,
    body: &[u8],
) -> (r: ReqSummary)
    ensures
        r@ == summary_spec(
            method@,
            path@,
            ip@,
            headers@,
            body@,
            crate::MAX_PREVIEW_BYTES as nat,
        ),
{
    summarize_request(method, path, ip, headers, body, crate::MAX_PREVIEW_BYTES)
}

/// The fixed acknowledgment payload returned to every client, regardless of
/// the request's content.
pub fn ack_response() -> (r: &'static str)
    ensures
        r@ == "logged request"@,
{
    "logged request"
}

/// Law: truncation is decided by the original byte length alone. A body no
/// longer than the limit is decoded whole and not flagged as truncated; a
/// longer body is flagged and only its first `max` bytes reach the decoder.
pub proof fn lemma_truncation_policy(
    method: Seq<char>,
    path: Seq<char>,
    ip: Seq<char>,
    headers: Seq<Header>,
    body: Seq<u8>,
    max: nat,
)
    ensures
        body.len() <= max ==> !summary_spec(method, path, ip, headers, body, max).truncated
            && summary_spec(method, path, ip, headers, body, max).body_preview == lossy_decode(
            body,
        ),
        body.len() > max ==> summary_spec(method, path, ip, headers, body, max).truncated
            && summary_spec(method, path, ip, headers, body, max).body_preview == lossy_decode(
            body.take(max as int),
        ),
{
    if body.len() <= max {
        assert(body.take(body.len() as int) =~= body);
    }
}

/// Law: the preview never holds more characters than the preview limit, and
/// so never more than the body itself holds bytes.
pub proof fn lemma_preview_bounded(
    method: Seq<char>,
    path: Seq<char>,
    ip: Seq<char>,
    headers: Seq<Header>,
    body: Seq<u8>,
    max: nat,
)
    ensures
        summary_spec(method, path, ip, headers, body, max).body_preview.len() <= max,
        summary_spec(method, path, ip, headers, body, max).body_preview.len() <= body.len(),
{
    crate::utf8_lossy::lemma_lossy_decode_len(body.take(preview_limit(body.len(), max)));
}

/// Law: summarization is pure — the summary is a function of the request
/// fields alone, so two summaries of identical inputs are identical.
pub proof fn lemma_summarize_deterministic(
    r1: ReqSummary,
    r2: ReqSummary,
    method: Seq<char>,
    path: Seq<char>,
    ip: Seq<char>,
    headers: Seq<Header>,
    body: Seq<u8>,
    max: nat,
)
    requires
        r1@ == summary_spec(method, path, ip, headers, body, max),
        r2@ == summary_spec(method, path, ip, headers, body, max),
    ensures
        r1@ == r2@,
{
}

} // verus!
