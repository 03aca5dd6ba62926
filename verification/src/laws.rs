//! Connection-level laws, stated over the spec functions that the
//! dispatcher's contracts use.

use vstd::prelude::*;
use crate::h1::proto::codec::Kind;
use crate::h1::proto::context::Context;
use crate::h1::proto::dispatcher::spec_idle_action;
use crate::h1::proto::dispatcher::IdleAction;
use crate::h1::proto::encode::spec_encode_emit;
use crate::h1::proto::encode::spec_encode_next;
use crate::h1::proto::buf::chunk_frame;
use crate::h1::proto::buf::crlf;
use crate::h1::proto::decode::spec_parse_head;
use crate::h1::proto::decode::spec_parse_header_line;
use crate::h1::proto::decode::spec_parse_header_lines;
use crate::h1::proto::decode::spec_parse_request_line;
use crate::h1::proto::decode::HeadOutcome;
use crate::http::to_lower;
use crate::http::version_token;
use crate::http::Version;
use crate::scan::crlf_at;
use crate::scan::crlfcrlf_at;
use crate::scan::is_ws;
use crate::scan::lemma_find_byte_is;
use crate::scan::lemma_find_crlf_is;
use crate::scan::lemma_find_crlfcrlf_is;
use crate::scan::trim_end;
use crate::scan::trim_start;
use crate::scan::trim_ws;

verus! {

/// Framing consistency, length bodies: one `encode` call on a `Length`
/// encoder emits exactly the bytes it subtracts from the remaining count,
/// truncating past it, and never emits once the count is spent.
pub proof fn lemma_length_encoder_framing(rem: u64, data: Seq<u8>)
    ensures
        spec_encode_emit(Kind::Length(rem), data).len() <= rem,
        spec_encode_next(Kind::Length(rem), data) == Kind::Length(
            (rem - spec_encode_emit(Kind::Length(rem), data).len()) as u64,
        ),
        data.len() <= rem ==> spec_encode_emit(Kind::Length(rem), data) == data,
{
    if data.len() == 0 {
    } else if rem <= data.len() {
        assert(spec_encode_emit(Kind::Length(rem), data).len() == rem);
    } else {
        assert(data.take(data.len() as int) =~= data);
    }
}

/// Framing consistency, chunked bodies: one `encode` call on a chunked
/// encoder emits the chunk wrapped in its size line and trailing CRLF,
/// nothing for empty input, and never changes the encoder.
pub proof fn lemma_chunked_encoder_framing(data: Seq<u8>)
    ensures
        data.len() > 0 ==> spec_encode_emit(Kind::EncodeChunked, data) == chunk_frame(data),
        data.len() == 0 ==> spec_encode_emit(Kind::EncodeChunked, data) == Seq::<u8>::empty(),
        spec_encode_next(Kind::EncodeChunked, data) == Kind::EncodeChunked,
{
}

/// In-order pipelining: every encode step appends, so when one response's
/// bytes are written and then another's, the write buffer holds them
/// whole and in that order — the second begins only after the first ends.
pub proof fn lemma_responses_in_order(base: Seq<u8>, first: Seq<u8>, second: Seq<u8>)
    ensures
        (base + first) + second == base + (first + second),
        ((base + first) + second).subrange(base.len() as int, (base + first).len() as int)
            == first,
        ((base + first) + second).subrange(
            (base + first).len() as int,
            ((base + first) + second).len() as int,
        ) == second,
{
    assert((base + first) + second =~= base + (first + second));
    assert(((base + first) + second).subrange(base.len() as int, (base + first).len() as int)
        =~= first);
    assert(((base + first) + second).subrange(
        (base + first).len() as int,
        ((base + first) + second).len() as int,
    ) =~= second);
}

/// Backpressure safety: reads happen only while the buffer is under its
/// limit, and one read appends one chunk, so the read buffer never holds
/// `limit` or more bytes plus a full further chunk.
pub proof fn lemma_read_buffer_bound(len: int, limit: int, chunk: int)
    requires
        len < limit,
        0 <= chunk,
    ensures
        len + chunk < limit + chunk,
{
}

/// The canonical wire form of one header line.
pub open spec fn spec_header_line_bytes(name: Seq<u8>, value: Seq<u8>) -> Seq<u8> {
    name + seq![58u8, 32u8] + value + crlf()
}

/// The canonical wire form of a run of header lines.
pub open spec fn spec_header_lines_bytes(hs: Seq<(Seq<u8>, Seq<u8>)>) -> Seq<u8>
    decreases hs.len(),
{
    if hs.len() == 0 {
        Seq::<u8>::empty()
    } else {
        spec_header_line_bytes(hs[0].0, hs[0].1) + spec_header_lines_bytes(hs.skip(1))
    }
}

/// The canonical wire form of a whole request head.
pub open spec fn spec_request_head_bytes(
    m: Seq<u8>,
    t: Seq<u8>,
    v: Version,
    hs: Seq<(Seq<u8>, Seq<u8>)>,
) -> Seq<u8> {
    m + seq![32u8] + t + seq![32u8] + version_token(v) + crlf() + spec_header_lines_bytes(hs)
        + crlf()
}

/// A method or target token: nonempty, no space, no CR, no LF.
pub open spec fn wf_token(s: Seq<u8>) -> bool {
    s.len() > 0 && forall|i: int|
        0 <= i < s.len() ==> #[trigger] s[i] != 32 && s[i] != 13 && s[i] != 10
}

/// A header name as the parser emits it: nonempty, lowercase, no colon,
/// no whitespace, no CR, no LF.
pub open spec fn wf_header_name(n: Seq<u8>) -> bool {
    n.len() > 0 && to_lower(n) == n && forall|i: int|
        0 <= i < n.len() ==> #[trigger] n[i] != 58 && !is_ws(n[i]) && n[i] != 13 && n[i] != 10
}

/// A header value as the parser emits it: trimmed, no CR, no LF.
pub open spec fn wf_header_value(v: Seq<u8>) -> bool {
    trim_ws(v) == v && forall|i: int| 0 <= i < v.len() ==> #[trigger] v[i] != 13 && v[i] != 10
}

pub open spec fn wf_headers(hs: Seq<(Seq<u8>, Seq<u8>)>) -> bool {
    forall|i: int|
        0 <= i < hs.len() ==> wf_header_name(#[trigger] hs[i].0) && wf_header_value(hs[i].1)
}

proof fn lemma_trim_pad(v: Seq<u8>)
    requires
        trim_ws(v) == v,
    ensures
        trim_ws(seq![32u8] + v) == v,
{
    let padded = seq![32u8] + v;
    assert(padded.len() > 0 && is_ws(padded[0]));
    assert(padded.skip(1) =~= v);
    assert(trim_start(padded) == trim_start(v));
    if v.len() > 0 && is_ws(v[0]) {
    } else {
        assert(trim_start(v) == v);
    }
}

/// The canonical header region parses back to exactly its headers, and its
/// bytes have the CRLF discipline the terminator search relies on: no CR
/// anywhere but in the line breaks, and never two line breaks in a row.
proof fn lemma_lines_props(hs: Seq<(Seq<u8>, Seq<u8>)>)
    requires
        wf_headers(hs),
    ensures
        ({
            let lb = spec_header_lines_bytes(hs);
            &&& spec_parse_header_lines(lb) == Some(hs)
            &&& (hs.len() > 0 ==> lb.len() >= 5 && lb[0] != 13)
            &&& (hs.len() > 0 ==> lb[lb.len() - 2] == 13 && lb[lb.len() - 1] == 10)
            &&& forall|j: int|
                0 <= j && j + 1 < lb.len() && lb[j] == 13 && #[trigger] lb[j + 1] == 10 ==> (j + 2
                    == lb.len() || lb[j + 2] != 13)
        }),
    decreases hs.len(),
{
    let lb = spec_header_lines_bytes(hs);
    if hs.len() == 0 {
        assert(spec_parse_header_lines(lb) == Some(Seq::<(Seq<u8>, Seq<u8>)>::empty()));
        assert(Some(Seq::<(Seq<u8>, Seq<u8>)>::empty()) == Some(hs)) by {
            assert(Seq::<(Seq<u8>, Seq<u8>)>::empty() =~= hs);
        }
    } else {
        let n = hs[0].0;
        let v = hs[0].1;
        let line = n + seq![58u8, 32u8] + v;
        let lb2 = spec_header_lines_bytes(hs.skip(1));
        assert(wf_header_name(n) && wf_header_value(v));
        assert(wf_headers(hs.skip(1))) by {
            assert(forall|i: int|
                0 <= i < hs.skip(1).len() ==> #[trigger] hs.skip(1)[i] == hs[i + 1]);
        }
        lemma_lines_props(hs.skip(1));
        assert(lb =~= line + crlf() + lb2);
        // No CR or LF anywhere in the line itself.
        assert(forall|i: int| 0 <= i < line.len() ==> #[trigger] line[i] != 13 && line[i] != 10);
        // The first CRLF of the region closes this line.
        assert(forall|j: int| 0 <= j < line.len() ==> !crlf_at(lb, j));
        assert(crlf_at(lb, line.len() as int));
        lemma_find_crlf_is(lb, line.len() as int);
        // This line parses back to its header.
        assert(lb.take(line.len() as int) =~= line);
        assert(forall|j: int| 0 <= j < n.len() ==> #[trigger] line[j] == n[j] && line[j] != 58);
        assert(line[n.len() as int] == 58);
        lemma_find_byte_is(line, 58, n.len() as int);
        assert(line.take(n.len() as int) =~= n);
        assert(line.skip(n.len() as int + 1) =~= seq![32u8] + v);
        lemma_trim_pad(v);
        assert(spec_parse_header_line(line) == Some((to_lower(n), v)));
        assert((to_lower(n), v) == hs[0]);
        // The remainder parses back to the remaining headers.
        assert(lb.skip(line.len() as int + 2) =~= lb2);
        assert(spec_parse_header_lines(lb) == Some(seq![hs[0]] + hs.skip(1)));
        assert(seq![hs[0]] + hs.skip(1) =~= hs);
        // The CRLF discipline.
        assert(lb.len() == line.len() + 2 + lb2.len());
        assert(lb.len() >= 5);
        assert(lb[0] == line[0] && line[0] != 13);
        if hs.skip(1).len() == 0 {
            assert(lb2.len() == 0);
            assert(lb[lb.len() - 2] == 13 && lb[lb.len() - 1] == 10);
        } else {
            assert(lb[lb.len() - 2] == lb2[lb2.len() - 2] && lb[lb.len() - 1] == lb2[lb2.len()
                - 1]);
        }
        assert forall|j: int|
            0 <= j && j + 1 < lb.len() && lb[j] == 13 && #[trigger] lb[j + 1] == 10 implies (j + 2
            == lb.len() || lb[j + 2] != 13) by {
            if j < line.len() {
                assert(lb[j] == line[j]);
                assert(false);
            } else if j == line.len() {
                if j + 2 < lb.len() {
                    assert(lb[j + 2] == lb2[0]);
                    assert(lb2[0] != 13);
                }
            } else if j == line.len() + 1 {
                assert(lb[j] == 10);
                assert(false);
            } else {
                let i = j - line.len() - 2;
                assert(lb[j] == lb2[i] && lb[j + 1] == lb2[i + 1]);
                if i + 2 == lb2.len() {
                    assert(j + 2 == lb.len());
                } else {
                    assert(lb[j + 2] == lb2[i + 2]);
                }
            }
        }
    }
}

/// Lowercasing is idempotent: the names the parser emits are already in
/// the form the round trip asks for.
pub proof fn lemma_to_lower_idempotent(s: Seq<u8>)
    ensures
        to_lower(to_lower(s)) == to_lower(s),
{
    assert(to_lower(to_lower(s)) =~= to_lower(s)) by {
        assert(forall|i: int|
            0 <= i < s.len() ==> to_lower(to_lower(s))[i] == crate::http::lower_byte(
                #[trigger] to_lower(s)[i],
            ));
    }
}

proof fn lemma_trim_start_no_leading(s: Seq<u8>)
    ensures
        trim_start(s).len() > 0 ==> !is_ws(trim_start(s)[0]),
        trim_start(s).len() <= s.len(),
    decreases s.len(),
{
    if s.len() > 0 && is_ws(s[0]) {
        lemma_trim_start_no_leading(s.skip(1));
    }
}

proof fn lemma_trim_end_shape(s: Seq<u8>)
    ensures
        trim_end(s).len() > 0 ==> !is_ws(trim_end(s).last()),
        trim_end(s).len() > 0 ==> trim_end(s)[0] == s[0],
        trim_end(s).len() <= s.len(),
    decreases s.len(),
{
    if s.len() > 0 && is_ws(s.last()) {
        lemma_trim_end_shape(s.drop_last());
    }
}

/// Trimming is idempotent: the values the parser emits are already in the
/// form the round trip asks for.
pub proof fn lemma_trim_ws_idempotent(s: Seq<u8>)
    ensures
        trim_ws(trim_ws(s)) == trim_ws(s),
{
    let u = trim_start(s);
    let t = trim_end(u);
    lemma_trim_start_no_leading(s);
    lemma_trim_end_shape(u);
    if t.len() == 0 {
        assert(trim_start(t) == t);
        assert(trim_end(t) == t);
    } else {
        assert(!is_ws(t[0]));
        assert(trim_start(t) == t);
        assert(!is_ws(t.last()));
        assert(trim_end(t) == t);
    }
}

/// Round trip: any well-formed head value, written in its canonical wire
/// form, parses back to exactly itself, consuming exactly its bytes.
/// Well-formed means what the parser itself guarantees of its output:
/// token method and target, lowercase ws-free header names, trimmed
/// CR/LF-free values.
pub proof fn theorem_head_round_trip(
    m: Seq<u8>,
    t: Seq<u8>,
    v: Version,
    hs: Seq<(Seq<u8>, Seq<u8>)>,
    limit: int,
)
    requires
        wf_token(m),
        wf_token(t),
        wf_headers(hs),
        hs.len() <= limit,
    ensures
        spec_parse_head(spec_request_head_bytes(m, t, v, hs), limit) == HeadOutcome::Head(
            m,
            t,
            v,
            hs,
            spec_request_head_bytes(m, t, v, hs).len() as int,
        ),
{
    let vt = version_token(v);
    let rl = m + seq![32u8] + t + seq![32u8] + vt;
    let lb = spec_header_lines_bytes(hs);
    let bytes = spec_request_head_bytes(m, t, v, hs);
    assert(bytes =~= rl + crlf() + lb + crlf());
    let rn = rl.len() as int;
    let ln = lb.len() as int;
    let total = bytes.len() as int;
    lemma_lines_props(hs);
    assert(vt.len() == 8);
    assert(forall|k: int| 0 <= k < 8 ==> #[trigger] vt[k] != 32 && vt[k] != 13 && vt[k] != 10)
        by {
        assert(vt[0] == 72 && vt[1] == 84 && vt[2] == 84 && vt[3] == 80 && vt[4] == 47 && vt[5]
            == 49 && vt[6] == 46 && (vt[7] == 48 || vt[7] == 49));
    }
    // The request line holds no CR and no LF at all.
    assert(forall|i: int| 0 <= i < rn ==> #[trigger] rl[i] != 13 && rl[i] != 10);
    // The head terminator is the first CRLFCRLF, at the very end.
    assert(total == rn + 2 + ln + 2);
    assert forall|j: int| 0 <= j < total - 4 implies !crlfcrlf_at(bytes, j) by {
        if j < rn {
            assert(bytes[j] == rl[j]);
        } else if j == rn {
            if ln > 0 {
                assert(bytes[j + 2] == lb[0]);
            }
        } else if j == rn + 1 {
            assert(bytes[j] == 10);
        } else {
            let i = j - rn - 2;
            assert(bytes[j] == lb[i] && bytes[j + 1] == lb[i + 1] && bytes[j + 2] == lb[i + 2]);
        }
    }
    assert(crlfcrlf_at(bytes, total - 4)) by {
        if ln == 0 {
            assert(bytes[total - 4] == 13 && bytes[total - 3] == 10);
        } else {
            assert(bytes[total - 4] == lb[ln - 2] && bytes[total - 3] == lb[ln - 1]);
        }
        assert(bytes[total - 2] == 13 && bytes[total - 1] == 10);
    }
    lemma_find_crlfcrlf_is(bytes, total - 4);
    let lines = bytes.take(total - 2);
    assert(lines =~= rl + crlf() + lb);
    // The first CRLF of the head closes the request line.
    assert(forall|j: int| 0 <= j < rn ==> !crlf_at(lines, j)) by {
        assert(forall|j: int| 0 <= j < rn ==> #[trigger] lines[j] == rl[j]);
    }
    assert(crlf_at(lines, rn));
    lemma_find_crlf_is(lines, rn);
    // The request line parses back to its three parts.
    assert(lines.take(rn) =~= rl);
    assert(forall|j: int| 0 <= j < m.len() ==> #[trigger] rl[j] == m[j] && rl[j] != 32);
    assert(rl[m.len() as int] == 32);
    lemma_find_byte_is(rl, 32, m.len() as int);
    assert(rl.take(m.len() as int) =~= m);
    let rest = t + seq![32u8] + vt;
    assert(rl.skip(m.len() as int + 1) =~= rest);
    assert(forall|j: int| 0 <= j < t.len() ==> #[trigger] rest[j] == t[j] && rest[j] != 32);
    assert(rest[t.len() as int] == 32);
    lemma_find_byte_is(rest, 32, t.len() as int);
    assert(rest.take(t.len() as int) =~= t);
    assert(rest.skip(t.len() as int + 1) =~= vt);
    assert(version_token(Version::Http10)[7] != version_token(Version::Http11)[7]);
    assert(spec_parse_request_line(rl) == Some((m, t, v)));
    // The header region parses back to the headers.
    assert(lines.skip(rn + 2) =~= lb);
    assert(spec_parse_head(bytes, limit) == HeadOutcome::Head(m, t, v, hs, total));
}
/// force-close flag (their contracts say so), and between requests a
/// force-closed connection is never offered another read — the idle
/// decision is to leave or shut down.
pub proof fn lemma_force_close_no_dispatch(ctx: Context)
    requires
        ctx.force_close,
    ensures
        spec_idle_action(ctx) != IdleAction::WaitRead,
{
}

} // verus!
