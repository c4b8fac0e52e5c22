//! What a decoder reads back of what an encoder wrote: a response built by
//! the receiver is decoded by the client codec as the same response, and a
//! request encoded by the client is decoded by the receiver's codec as the
//! same request, when the header text is plain ASCII.
use vstd::prelude::*;
use vstd::utf8::{
    decode_utf8, encode_utf8, encode_utf8_decode_utf8, encode_utf8_valid_utf8, is_ascii_chars,
    is_ascii_chars_encode_utf8, valid_utf8,
};
use super::codec::{spec_decode_response, status_line};
use super::headers::{first_match, lemma_first_match, names, spec_get, spec_insert, HeaderSeq};
use super::request::{header_lines, request_head, spec_encode_request, RequestView};
use super::response::{spec_reason, ResponseView};
use super::server_codec::{request_line, response_head, spec_decode_request, spec_encode_response};
use super::wire::{
    blank_line_at, blank_line_from, body_length, crlf_lines, head_end, header_of, join_lines,
    lemma_crlf_lines_join, lemma_join_crs, parse_header_lines, plain, split_once,
};
use super::{lemma_method_name_roundtrip, Method};
use crate::text::{
    before_first, decimal, eq_ignore_ascii_case, is_white_space, lemma_before_first, lemma_decimal,
    trimmed, unsigned_value,
};

verus! {

/// Text that can stand in a head as it is: ASCII with no line break.
pub open spec fn wire_text(s: Seq<char>) -> bool {
    is_ascii_chars(s) && plain(s)
}

/// A header that is read back as it was written: both parts are wire
/// text, the name has no colon, and neither part starts or ends with white
/// space.
pub open spec fn header_entry_ok(e: (Seq<char>, Seq<char>)) -> bool {
    &&& wire_text(e.0)
    &&& wire_text(e.1)
    &&& !e.0.contains(':')
    &&& trimmed(e.0) == e.0
    &&& trimmed(e.1) == e.1
}

/// Headers that are read back as they were written: each entry is, no two
/// names match (ignoring ASCII case), and none is `Content-Length`, which
/// the encoders write themselves.
pub open spec fn headers_ok(h: HeaderSeq) -> bool {
    &&& forall|i: int| 0 <= i < h.len() ==> header_entry_ok(#[trigger] h[i])
    &&& forall|i: int, j: int|
        0 <= i < j < h.len() ==> !eq_ignore_ascii_case(#[trigger] h[i].0, #[trigger] h[j].0)
    &&& forall|i: int|
        0 <= i < h.len() ==> !eq_ignore_ascii_case(#[trigger] h[i].0, names::CONTENT_LENGTH@)
}

/// The line of one header.
pub open spec fn header_text(e: (Seq<char>, Seq<char>)) -> Seq<char> {
    e.0 + ": "@ + e.1
}

/// The lines of the headers, in order.
pub open spec fn header_texts(h: HeaderSeq) -> Seq<Seq<char>> {
    h.map_values(|e: (Seq<char>, Seq<char>)| header_text(e))
}

/// The headers that the decoders read back: those written, and the
/// `Content-Length` that the encoders add for a body.
pub open spec fn with_length(h: HeaderSeq, body_len: nat) -> HeaderSeq {
    if body_len > 0 {
        spec_insert(h, names::CONTENT_LENGTH@, decimal(body_len))
    } else {
        h
    }
}

proof fn lemma_head_text(start: Seq<char>, h: HeaderSeq)
    ensures
        start + "\r\n"@ + header_lines(h) == join_lines(start, header_texts(h)) + "\r\n"@,
    decreases h.len(),
{
    reveal_strlit("\r\n");
    reveal_strlit(": ");
    if h.len() == 0 {
        assert(header_lines(h) =~= Seq::<char>::empty());
        assert(header_texts(h) =~= Seq::<Seq<char>>::empty());
        assert(start + "\r\n"@ + header_lines(h) =~= start + "\r\n"@);
    } else {
        let h2 = h.drop_last();
        lemma_head_text(start, h2);
        assert(header_texts(h).drop_last() =~= header_texts(h2));
        assert(header_texts(h).last() == header_text(h.last()));
        assert(start + "\r\n"@ + header_lines(h) =~= start + "\r\n"@ + header_lines(h2) + h.last().0
            + ": "@ + h.last().1 + "\r\n"@);
        assert(join_lines(start, header_texts(h)) =~= join_lines(start, header_texts(h2))
            + "\r\n"@ + header_text(h.last()));
    }
}

proof fn lemma_trimmed_space(v: Seq<char>)
    ensures
        trimmed(" "@ + v) == trimmed(v),
{
    reveal_strlit(" ");
    let s = " "@ + v;
    assert(s[0] == ' ');
    assert(is_white_space(s[0]));
    assert(s.drop_first() =~= v);
}

proof fn lemma_header_line(e: (Seq<char>, Seq<char>))
    requires
        header_entry_ok(e),
    ensures
        header_of(header_text(e)) == Some(e),
        wire_text(header_text(e)),
        header_text(e).len() > 0,
{
    reveal_strlit(": ");
    reveal_strlit(" ");
    let l = header_text(e);
    let k = e.0.len() as int;
    assert forall|j: int| 0 <= j < k implies l[j] != ':' by {
        assert(l[j] == e.0[j]);
        if e.0[j] == ':' {
            assert(e.0.contains(':'));
        }
    }
    assert(l[k] == ':');
    lemma_before_first(l, ':', k);
    assert(before_first(l, ':') =~= e.0);
    assert(l.subrange(k + 1, l.len() as int) =~= " "@ + e.1);
    lemma_trimmed_space(e.1);
    assert(split_once(l, ':') == Some((e.0, " "@ + e.1)));
    assert forall|i: int| 0 <= i < l.len() implies '\0' <= #[trigger] l[i] <= '\u{7f}' && l[i]
        != '\r' && l[i] != '\n' by {
        if i < k {
            assert(l[i] == e.0[i]);
        } else if i >= k + 2 {
            assert(l[i] == e.1[i - k - 2]);
        }
    }
}

proof fn lemma_header_lines_parse(h: HeaderSeq)
    requires
        forall|i: int| 0 <= i < h.len() ==> header_entry_ok(#[trigger] h[i]),
        forall|i: int, j: int|
            0 <= i < j < h.len() ==> !eq_ignore_ascii_case(#[trigger] h[i].0, #[trigger] h[j].0),
    ensures
        parse_header_lines(header_texts(h)) == Ok::<HeaderSeq, Seq<char>>(h),
    decreases h.len(),
{
    if h.len() == 0 {
        assert(header_texts(h) =~= Seq::<Seq<char>>::empty());
        assert(h =~= Seq::<(Seq<char>, Seq<char>)>::empty());
    } else {
        let h2 = h.drop_last();
        assert forall|i: int| 0 <= i < h2.len() implies header_entry_ok(#[trigger] h2[i]) by {
            assert(h2[i] == h[i]);
        }
        assert forall|i: int, j: int|
            0 <= i < j < h2.len() implies !eq_ignore_ascii_case(
            #[trigger] h2[i].0,
            #[trigger] h2[j].0,
        ) by {
            assert(h2[i] == h[i]);
            assert(h2[j] == h[j]);
        }
        lemma_header_lines_parse(h2);
        assert(header_texts(h).drop_last() =~= header_texts(h2));
        let e = h.last();
        assert(header_entry_ok(h[h.len() - 1]));
        lemma_header_line(e);
        lemma_first_match(h2, e.0);
        if first_match(h2, e.0) is Some {
            let m = first_match(h2, e.0).unwrap();
            assert(h2[m] == h[m]);
            assert(!eq_ignore_ascii_case(h[m].0, h[h.len() - 1].0));
        }
        assert(first_match(h2, e.0) is None);
        assert(h2.push(e) =~= h);
        assert(spec_insert(h2, e.0, e.1) == h);
        let ts = header_texts(h);
        assert(ts.len() == h.len());
        assert(ts.last() == header_text(e));
        assert(ts.drop_last() == header_texts(h2));
        assert(header_of(ts.last()) == Some(e));
        assert(parse_header_lines(ts.drop_last()) == Ok::<HeaderSeq, Seq<char>>(h2));
        assert(parse_header_lines(ts) == Ok::<HeaderSeq, Seq<char>>(h));
    }
}

/// The bytes of ASCII text are its characters, one byte each.
proof fn lemma_ascii_byte(c: char, b: u8)
    requires
        '\0' <= c <= '\u{7f}',
        c as u8 == b,
    ensures
        b == 13 <==> c == '\r',
        b == 10 <==> c == '\n',
{
    let x = c as u32;
    assert(x <= 0x7f);
    assert(c as u8 == x as u8);
    assert((x as u8 == 13u8) <==> (x == 13u32)) by (bit_vector)
        requires
            x <= 0x7f,
    ;
    assert((x as u8 == 10u8) <==> (x == 10u32)) by (bit_vector)
        requires
            x <= 0x7f,
    ;
}

/// For a head `y` whose every CR is followed by LF and then by something
/// other than CR, the first blank line in the bytes of `y`, a blank line
/// and anything after is the one right after `y`.
proof fn lemma_head_end(y: Seq<char>, more: Seq<u8>)
    requires
        is_ascii_chars(y),
        y.len() > 0,
        plain(seq![y.last()]),
        forall|q: int|
            0 <= q < y.len() && #[trigger] y[q] == '\r' ==> q + 2 < y.len() && y[q + 1] == '\n'
                && y[q + 2] != '\r',
    ensures
        head_end(encode_utf8(y + "\r\n\r\n"@) + more) == Some(y.len() as int),
        encode_utf8(y + "\r\n\r\n"@).subrange(0, y.len() as int) == encode_utf8(y),
        encode_utf8(y + "\r\n\r\n"@).len() == y.len() + 4,
{
    reveal_strlit("\r\n\r\n");
    let t = y + "\r\n\r\n"@;
    assert(is_ascii_chars(t)) by {
        assert forall|i: int| 0 <= i < t.len() implies '\0' <= #[trigger] t[i] <= '\u{7f}' by {
            if i < y.len() {
                assert(t[i] == y[i]);
            }
        }
    }
    is_ascii_chars_encode_utf8(t);
    is_ascii_chars_encode_utf8(y);
    let et = encode_utf8(t);
    let b = et + more;
    assert forall|i: int| 0 <= i < t.len() implies b[i] == #[trigger] t[i] as u8 by {
        assert(b[i] == et[i]);
    }
    assert forall|i: int| 0 <= i < t.len() implies (b[i] == 13 <==> #[trigger] t[i] == '\r') && (
    b[i] == 10 <==> t[i] == '\n') by {
        lemma_ascii_byte(t[i], b[i]);
    }
    let e = y.len() as int;
    assert(t[e] == '\r' && t[e + 1] == '\n' && t[e + 2] == '\r' && t[e + 3] == '\n');
    assert(blank_line_at(b, e));
    assert forall|p: int| 0 <= p < e implies !blank_line_at(b, p) by {
        if blank_line_at(b, p) {
            assert(b[p] == 13);
            assert(t[p] == '\r');
            assert(y[p] == t[p]);
            if p + 2 < y.len() {
                assert(t[p + 2] == y[p + 2]);
            }
            assert(b[p + 2] == 13);
            assert(t[p + 2] == '\r');
            assert(false);
        }
    }
    lemma_first_blank(b, 0, e);
    assert(et.subrange(0, e) =~= encode_utf8(y));
}

proof fn lemma_first_blank(b: Seq<u8>, i: int, e: int)
    requires
        0 <= i <= e,
        blank_line_at(b, e),
        forall|p: int| i <= p < e ==> !blank_line_at(b, p),
    ensures
        blank_line_from(b, i) == Some(e),
    decreases e - i,
{
    if i < e {
        lemma_first_blank(b, i + 1, e);
    }
}

/// The status line a response is written with.
pub open spec fn status_text(status: u16) -> Seq<char> {
    "RTSP/1.0 "@ + decimal(status as nat) + " "@ + spec_reason(status)
}

proof fn lemma_reason_text(status: u16)
    ensures
        wire_text(spec_reason(status)),
{
    reveal_strlit("OK");
    reveal_strlit("Bad Request");
    reveal_strlit("Unauthorized");
    reveal_strlit("Forbidden");
    reveal_strlit("Not Found");
    reveal_strlit("Method Not Allowed");
    reveal_strlit("Not Enough Bandwidth");
    reveal_strlit("Session Not Found");
    reveal_strlit("Method Not Valid in This State");
    reveal_strlit("Connection Authorization Required");
    reveal_strlit("Internal Server Error");
    reveal_strlit("Not Implemented");
    reveal_strlit("Service Unavailable");
    reveal_strlit("Unknown");
}

proof fn lemma_status_line(status: u16)
    ensures
        status_line(status_text(status)) == Some(("RTSP/1.0"@, status, spec_reason(status))),
        wire_text(status_text(status)),
        status_text(status).len() > 0,
{
    reveal_strlit("RTSP/1.0 ");
    reveal_strlit("RTSP/1.0");
    reveal_strlit(" ");
    reveal_strlit("RTSP/");
    let d = decimal(status as nat);
    let r = spec_reason(status);
    lemma_decimal(status as nat);
    lemma_reason_text(status);
    let l = status_text(status);
    assert forall|j: int| 0 <= j < 8 implies l[j] != ' ' by {}
    assert(l[8] == ' ');
    lemma_before_first(l, ' ', 8);
    assert(before_first(l, ' ') =~= "RTSP/1.0"@);
    let rest = l.subrange(9, l.len() as int);
    assert(rest =~= d + " "@ + r);
    assert forall|j: int| 0 <= j < d.len() implies rest[j] != ' ' by {
        assert(rest[j] == d[j]);
    }
    assert(rest[d.len() as int] == ' ');
    lemma_before_first(rest, ' ', d.len() as int);
    assert(before_first(rest, ' ') =~= d);
    assert(rest.subrange(d.len() + 1int, rest.len() as int) =~= r);
    assert("RTSP/1.0"@.subrange(0, 5) =~= "RTSP/"@);
    assert forall|i: int| 0 <= i < l.len() implies '\0' <= #[trigger] l[i] <= '\u{7f}' && l[i]
        != '\r' && l[i] != '\n' by {
        if 9 <= i < 9 + d.len() {
            assert(l[i] == d[i - 9]);
        } else if i >= 10 + d.len() {
            assert(l[i] == r[i - 10 - d.len()]);
        }
    }
}

proof fn lemma_length_header(len: nat)
    requires
        len > 0,
    ensures
        header_entry_ok((names::CONTENT_LENGTH@, decimal(len))),
{
    reveal_strlit("Content-Length");
    lemma_decimal(len);
    let d = decimal(len);
    let n = names::CONTENT_LENGTH@;
    assert(!is_white_space(n[0]) && !is_white_space(n.last()));
    assert(!is_white_space(d[0]) && !is_white_space(d.last()));
    assert(!n.contains(':')) by {
        if n.contains(':') {
            let i = choose|i: int| 0 <= i < n.len() && n[i] == ':';
            assert(n[i] != ':');
        }
    }
}

/// The parts of a head that the decoders read back: the start line, then
/// the header lines.
proof fn lemma_head(start: Seq<char>, h: HeaderSeq, body: Seq<u8>, more: Seq<u8>)
    requires
        wire_text(start),
        start.len() > 0,
        forall|i: int| 0 <= i < h.len() ==> header_entry_ok(#[trigger] h[i]),
        forall|i: int, j: int|
            0 <= i < j < h.len() ==> !eq_ignore_ascii_case(#[trigger] h[i].0, #[trigger] h[j].0),
    ensures
        ({
            let t = start + "\r\n"@ + header_lines(h) + "\r\n"@;
            let y = join_lines(start, header_texts(h));
            &&& t == y + "\r\n\r\n"@
            &&& head_end(encode_utf8(t) + body + more) == Some(y.len() as int)
            &&& (encode_utf8(t) + body + more).subrange(0, y.len() as int) == encode_utf8(y)
            &&& encode_utf8(t).len() == y.len() + 4
            &&& valid_utf8(encode_utf8(y))
            &&& decode_utf8(encode_utf8(y)) == y
            &&& crlf_lines(y) == seq![start] + header_texts(h)
            &&& parse_header_lines(header_texts(h)) == Ok::<HeaderSeq, Seq<char>>(h)
        }),
{
    reveal_strlit("\r\n");
    reveal_strlit("\r\n\r\n");
    let t = start + "\r\n"@ + header_lines(h) + "\r\n"@;
    let ls = header_texts(h);
    let y = join_lines(start, ls);
    lemma_head_text(start, h);
    assert(t =~= y + "\r\n\r\n"@);
    assert forall|i: int| 0 <= i < ls.len() implies plain(#[trigger] ls[i]) && ls[i].len() > 0
        && is_ascii_chars(ls[i]) by {
        assert(ls[i] == header_text(h[i]));
        lemma_header_line(h[i]);
    }
    lemma_join_crs(start, ls);
    lemma_join_ascii(start, ls);
    lemma_head_end(y, body + more);
    assert(encode_utf8(t) + body + more =~= encode_utf8(t) + (body + more));
    encode_utf8_valid_utf8(y);
    encode_utf8_decode_utf8(y);
    lemma_crlf_lines_join(start, ls);
    lemma_header_lines_parse(h);
}

proof fn lemma_join_ascii(first: Seq<char>, rest: Seq<Seq<char>>)
    requires
        is_ascii_chars(first),
        forall|i: int| 0 <= i < rest.len() ==> is_ascii_chars(#[trigger] rest[i]),
    ensures
        is_ascii_chars(join_lines(first, rest)),
    decreases rest.len(),
{
    reveal_strlit("\r\n");
    if rest.len() > 0 {
        let r2 = rest.drop_last();
        assert forall|i: int| 0 <= i < r2.len() implies is_ascii_chars(#[trigger] r2[i]) by {
            assert(r2[i] == rest[i]);
        }
        lemma_join_ascii(first, r2);
        let y = join_lines(first, r2);
        let l = rest.last();
        assert(is_ascii_chars(rest[rest.len() - 1]));
        let t = join_lines(first, rest);
        assert(t == y + "\r\n"@ + l);
        assert forall|i: int| 0 <= i < t.len() implies '\0' <= #[trigger] t[i] <= '\u{7f}' by {
            if i < y.len() {
                assert(t[i] == y[i]);
            } else if i >= y.len() + 2 {
                assert(t[i] == l[i - y.len() - 2]);
            }
        }
    }
}

proof fn lemma_with_length(h: HeaderSeq, len: nat)
    requires
        headers_ok(h),
    ensures
        len > 0 ==> with_length(h, len) == h.push((names::CONTENT_LENGTH@, decimal(len))),
        forall|i: int|
            0 <= i < with_length(h, len).len() ==> header_entry_ok(#[trigger] with_length(h, len)[i]),
        forall|i: int, j: int|
            0 <= i < j < with_length(h, len).len() ==> !eq_ignore_ascii_case(
                #[trigger] with_length(h, len)[i].0,
                #[trigger] with_length(h, len)[j].0,
            ),
        body_length(with_length(h, len)) == Ok::<nat, Seq<char>>(len) || len > usize::MAX,
{
    let n = names::CONTENT_LENGTH@;
    lemma_first_match(h, n);
    if first_match(h, n) is Some {
        let m = first_match(h, n).unwrap();
        assert(!eq_ignore_ascii_case(h[m].0, n));
    }
    lemma_decimal(len);
    if len > 0 {
        lemma_length_header(len);
        let h2 = with_length(h, len);
        assert(h2 == h.push((n, decimal(len))));
        assert forall|i: int| 0 <= i < h2.len() implies header_entry_ok(#[trigger] h2[i]) by {
            if i < h.len() {
                assert(h2[i] == h[i]);
            }
        }
        assert forall|i: int, j: int| 0 <= i < j < h2.len() implies !eq_ignore_ascii_case(
            #[trigger] h2[i].0,
            #[trigger] h2[j].0,
        ) by {
            assert(h2[i] == h[i]);
            if j < h.len() {
                assert(h2[j] == h[j]);
            } else {
                assert(!eq_ignore_ascii_case(h[i].0, n));
            }
        }
        super::headers::lemma_get_insert(h, n, decimal(len), n);
        assert(eq_ignore_ascii_case(n, n));
    } else {
        assert(spec_get(h, n) is None);
    }
}

/// A response the receiver encodes is decoded by the client codec as the
/// same status, reason phrase, headers (with the `Content-Length` that the
/// encoding adds for a body) and body, taking exactly the encoded bytes;
/// whatever follows stays buffered. This holds when the headers are plain
/// ASCII that reads back as written (`headers_ok`).
pub proof fn lemma_response_roundtrip(status: u16, h: HeaderSeq, body: Seq<u8>, more: Seq<u8>)
    requires
        headers_ok(h),
        body.len() <= usize::MAX,
    ensures
        spec_decode_response(spec_encode_response(status, h, body) + more) == Ok::<
            Option<(ResponseView, nat)>,
            super::codec::CodecErrorView,
        >(
            Some(
                (
                    ResponseView {
                        version: "RTSP/1.0"@,
                        status,
                        reason: spec_reason(status),
                        headers: with_length(h, body.len()),
                        body,
                    },
                    spec_encode_response(status, h, body).len(),
                ),
            ),
        ),
{
    reveal_strlit("RTSP/1.0 ");
    reveal_strlit(": ");
    reveal_strlit("\r\n");
    let h2 = with_length(h, body.len());
    lemma_with_length(h, body.len());
    let start = status_text(status);
    lemma_status_line(status);
    let t = start + "\r\n"@ + header_lines(h2) + "\r\n"@;
    assert(response_head(status, h, body.len()) =~= t) by {
        if body.len() > 0 {
            assert(header_lines(h2).drop_last() =~= header_lines(h2).drop_last());
            assert(h2.drop_last() =~= h);
            assert(header_lines(h2) =~= header_lines(h) + names::CONTENT_LENGTH@ + ": "@
                + decimal(body.len()) + "\r\n"@);
        }
    }
    lemma_head(start, h2, body, more);
    let y = join_lines(start, header_texts(h2));
    let enc = spec_encode_response(status, h, body);
    assert(enc + more =~= encode_utf8(t) + body + more);
    let ls = crlf_lines(y);
    assert(ls[0] == start);
    assert(ls.subrange(1, ls.len() as int) =~= header_texts(h2));
    let e = y.len() as int;
    assert((enc + more).subrange(e + 4, e + 4 + body.len()) =~= body);
}

/// The request line a request is written with.
pub open spec fn request_text(m: Method, uri: Seq<char>) -> Seq<char> {
    m.spec_name() + " "@ + uri + " RTSP/1.0"@
}

proof fn lemma_method_text(m: Method)
    ensures
        wire_text(m.spec_name()),
        m.spec_name().len() > 0,
        forall|j: int| 0 <= j < m.spec_name().len() ==> #[trigger] m.spec_name()[j] != ' ',
{
    reveal_strlit("OPTIONS");
    reveal_strlit("ANNOUNCE");
    reveal_strlit("SETUP");
    reveal_strlit("RECORD");
    reveal_strlit("PLAY");
    reveal_strlit("PAUSE");
    reveal_strlit("FLUSH");
    reveal_strlit("TEARDOWN");
    reveal_strlit("SET_PARAMETER");
    reveal_strlit("GET_PARAMETER");
    reveal_strlit("POST");
    reveal_strlit("GET");
    reveal_strlit("SETRATEANCHORTIME");
}

proof fn lemma_request_line(m: Method, uri: Seq<char>)
    requires
        wire_text(uri),
        !uri.contains(' '),
    ensures
        request_line(request_text(m, uri)) == Some((m.spec_name(), uri)),
        wire_text(request_text(m, uri)),
        request_text(m, uri).len() > 0,
{
    reveal_strlit(" ");
    reveal_strlit(" RTSP/1.0");
    reveal_strlit("RTSP/1.0");
    reveal_strlit("RTSP/");
    lemma_method_text(m);
    let name = m.spec_name();
    let l = request_text(m, uri);
    let k = name.len() as int;
    assert forall|j: int| 0 <= j < k implies l[j] != ' ' by {
        assert(l[j] == name[j]);
    }
    assert(l[k] == ' ');
    lemma_before_first(l, ' ', k);
    assert(before_first(l, ' ') =~= name);
    let rest = l.subrange(k + 1, l.len() as int);
    assert(rest =~= uri + " RTSP/1.0"@);
    assert forall|j: int| 0 <= j < uri.len() implies rest[j] != ' ' by {
        assert(rest[j] == uri[j]);
        if uri[j] == ' ' {
            assert(uri.contains(' '));
        }
    }
    assert(rest[uri.len() as int] == ' ');
    lemma_before_first(rest, ' ', uri.len() as int);
    assert(before_first(rest, ' ') =~= uri);
    assert(rest.subrange(uri.len() + 1int, rest.len() as int) =~= "RTSP/1.0"@);
    assert("RTSP/1.0"@.subrange(0, 5) =~= "RTSP/"@);
    assert forall|i: int| 0 <= i < l.len() implies '\0' <= #[trigger] l[i] <= '\u{7f}' && l[i]
        != '\r' && l[i] != '\n' by {
        if i < k {
            assert(l[i] == name[i]);
        } else if k + 1 <= i < k + 1 + uri.len() {
            assert(l[i] == uri[i - k - 1]);
        }
    }
}

/// A request the client encodes is decoded by the receiver's codec as the
/// same method, URI, headers (with the `Content-Length` that the encoding
/// adds for a body) and body, taking exactly the encoded bytes; whatever
/// follows stays buffered. This holds when the URI is plain ASCII without
/// spaces and the headers read back as written (`headers_ok`).
pub proof fn lemma_request_roundtrip(
    m: Method,
    uri: Seq<char>,
    h: HeaderSeq,
    body: Seq<u8>,
    more: Seq<u8>,
)
    requires
        wire_text(uri),
        !uri.contains(' '),
        headers_ok(h),
        body.len() <= usize::MAX,
    ensures
        spec_decode_request(spec_encode_request(m, uri, h, body) + more) == Ok::<
            Option<(RequestView, nat)>,
            super::server_codec::ServerErrorView,
        >(
            Some(
                (
                    RequestView { method: m, uri, headers: with_length(h, body.len()), body },
                    spec_encode_request(m, uri, h, body).len(),
                ),
            ),
        ),
{
    reveal_strlit(" ");
    reveal_strlit(" RTSP/1.0\r\n");
    reveal_strlit(" RTSP/1.0");
    reveal_strlit(": ");
    reveal_strlit("\r\n");
    let h2 = with_length(h, body.len());
    lemma_with_length(h, body.len());
    let start = request_text(m, uri);
    lemma_request_line(m, uri);
    lemma_method_name_roundtrip(m);
    let t = start + "\r\n"@ + header_lines(h2) + "\r\n"@;
    assert(request_head(m, uri, h, body.len()) =~= t) by {
        if body.len() > 0 {
            assert(h2.drop_last() =~= h);
            assert(header_lines(h2) =~= header_lines(h) + names::CONTENT_LENGTH@ + ": "@
                + decimal(body.len()) + "\r\n"@);
        }
    }
    lemma_head(start, h2, body, more);
    let y = join_lines(start, header_texts(h2));
    let enc = spec_encode_request(m, uri, h, body);
    assert(enc + more =~= encode_utf8(t) + body + more);
    let ls = crlf_lines(y);
    assert(ls[0] == start);
    assert(ls.subrange(1, ls.len() as int) =~= header_texts(h2));
    let e = y.len() as int;
    assert((enc + more).subrange(e + 4, e + 4 + body.len()) =~= body);
}

} // verus!
