//! Framing of RTSP messages on a byte stream: the head ends at the first
//! blank line, its lines are separated by CR LF, each header line is
//! `name: value`, and a `Content-Length` header gives the length of the
//! body that follows the head.
use vstd::prelude::*;
use super::headers::{names, spec_get, spec_insert, HeaderSeq, Headers};
use crate::text::{
    before_first, lemma_before_first, parse_u64, str_eq, trim, trimmed, unsigned_value,
};

verus! {

/// Whether the four bytes at `i` are CR LF CR LF.
pub open spec fn blank_line_at(buf: Seq<u8>, i: int) -> bool {
    &&& 0 <= i
    &&& i + 4 <= buf.len()
    &&& buf[i] == 13u8
    &&& buf[i + 1] == 10u8
    &&& buf[i + 2] == 13u8
    &&& buf[i + 3] == 10u8
}

/// The index of the first CR LF CR LF that starts at or after `i`.
pub open spec fn blank_line_from(buf: Seq<u8>, i: int) -> Option<int>
    decreases buf.len() - i,
{
    if i < 0 || i + 4 > buf.len() {
        None
    } else if blank_line_at(buf, i) {
        Some(i)
    } else {
        blank_line_from(buf, i + 1)
    }
}

/// Where the head of the first message in `buf` ends: the index of its
/// first CR LF CR LF (the head is what comes before it).
pub open spec fn head_end(buf: Seq<u8>) -> Option<int> {
    blank_line_from(buf, 0)
}

/// Find the end of the head of the first message in `buf`.
pub fn find_head_end(buf: &[u8]) -> (r: Option<usize>)
    ensures
        r matches Some(e) ==> head_end(buf@) == Some(e as int),
        r is None ==> head_end(buf@) is None,
{
    let n = buf.len();
    let mut i: usize = 0;
    while i < n && n - i >= 4
        invariant
            i <= n,
            n == buf@.len(),
            blank_line_from(buf@, 0) == blank_line_from(buf@, i as int),
        decreases n - i,
    {
        if buf[i] == 13 && buf[i + 1] == 10 && buf[i + 2] == 13 && buf[i + 3] == 10 {
            return Some(i);
        }
        i = i + 1;
    }
    None
}

/// A blank line found at `e` is where it is: the head ends there.
pub proof fn lemma_blank_line_from(buf: Seq<u8>, i: int)
    requires
        0 <= i,
    ensures
        blank_line_from(buf, i) matches Some(e) ==> i <= e && blank_line_at(buf, e) && forall|
            k: int,
        | i <= k < e ==> !blank_line_at(buf, k),
        blank_line_from(buf, i) is None ==> forall|k: int| i <= k ==> !blank_line_at(buf, k),
    decreases buf.len() - i,
{
    if i + 4 <= buf.len() && !blank_line_at(buf, i) {
        lemma_blank_line_from(buf, i + 1);
    }
}

/// The lines of a text separated by CR LF, as `str::split("\r\n")`
/// gives them.
pub open spec fn crlf_lines(t: Seq<char>) -> Seq<Seq<char>>
    decreases t.len(),
{
    if t.len() == 0 {
        seq![Seq::empty()]
    } else if t.len() >= 2 && t[t.len() - 2] == '\r' && t[t.len() - 1] == '\n' {
        crlf_lines(t.subrange(0, t.len() - 2)).push(Seq::empty())
    } else {
        let ls = crlf_lines(t.drop_last());
        ls.update(ls.len() - 1, ls.last().push(t.last()))
    }
}

/// A text always has at least one line.
pub proof fn lemma_crlf_lines_nonempty(t: Seq<char>)
    ensures
        crlf_lines(t).len() >= 1,
    decreases t.len(),
{
    if t.len() > 0 {
        if t.len() >= 2 && t[t.len() - 2] == '\r' && t[t.len() - 1] == '\n' {
            lemma_crlf_lines_nonempty(t.subrange(0, t.len() - 2));
        } else {
            lemma_crlf_lines_nonempty(t.drop_last());
        }
    }
}

/// Whether a text holds no CR and no LF.
pub open spec fn plain(s: Seq<char>) -> bool {
    forall|i: int| 0 <= i < s.len() ==> #[trigger] s[i] != '\r' && s[i] != '\n'
}

/// Lines joined with CR LF between them: `first`, then each of `rest`.
pub open spec fn join_lines(first: Seq<char>, rest: Seq<Seq<char>>) -> Seq<char>
    decreases rest.len(),
{
    if rest.len() == 0 {
        first
    } else {
        join_lines(first, rest.drop_last()) + "\r\n"@ + rest.last()
    }
}

/// A text that comes after a line break and holds no line break is the
/// last line.
pub proof fn lemma_crlf_lines_append(z: Seq<char>, l: Seq<char>)
    requires
        plain(l),
    ensures
        crlf_lines(z + "\r\n"@ + l) == crlf_lines(z).push(l),
    decreases l.len(),
{
    reveal_strlit("\r\n");
    let t = z + "\r\n"@ + l;
    if l.len() == 0 {
        assert(t =~= z + "\r\n"@);
        assert(t[t.len() - 2] == '\r' && t[t.len() - 1] == '\n');
        assert(t.subrange(0, t.len() - 2) =~= z);
        assert(l =~= Seq::<char>::empty());
        assert(crlf_lines(t) == crlf_lines(z).push(Seq::<char>::empty()));
    } else {
        let l2 = l.drop_last();
        assert(plain(l2));
        lemma_crlf_lines_append(z, l2);
        assert(t.drop_last() =~= z + "\r\n"@ + l2);
        assert(t.last() == l.last());
        assert(l[l.len() - 1] != '\n');
        assert(l2.push(l.last()) =~= l);
        let base = crlf_lines(z);
        assert(base.push(l2).update(base.len() as int, l2.push(l.last())) =~= base.push(l));
        assert(crlf_lines(t.drop_last()) == base.push(l2));
        assert(!(t[t.len() - 2] == '\r' && t[t.len() - 1] == '\n'));
        assert(crlf_lines(t) == base.push(l));
    }
}

/// A text with no line break is one line.
pub proof fn lemma_crlf_lines_plain(l: Seq<char>)
    requires
        plain(l),
    ensures
        crlf_lines(l) == seq![l],
    decreases l.len(),
{
    if l.len() == 0 {
        assert(l =~= Seq::<char>::empty());
    } else {
        let l2 = l.drop_last();
        assert(plain(l2));
        lemma_crlf_lines_plain(l2);
        assert(l2.push(l.last()) =~= l);
        assert(seq![l2].update(0, l2.push(l.last())) =~= seq![l]);
    }
}

/// Splitting joined lines gives them back when none holds a line break.
pub proof fn lemma_crlf_lines_join(first: Seq<char>, rest: Seq<Seq<char>>)
    requires
        plain(first),
        forall|i: int| 0 <= i < rest.len() ==> plain(#[trigger] rest[i]),
    ensures
        crlf_lines(join_lines(first, rest)) == seq![first] + rest,
    decreases rest.len(),
{
    if rest.len() == 0 {
        lemma_crlf_lines_plain(first);
        assert(seq![first] + rest =~= seq![first]);
    } else {
        let r2 = rest.drop_last();
        assert forall|i: int| 0 <= i < r2.len() implies plain(#[trigger] r2[i]) by {
            assert(r2[i] == rest[i]);
        }
        lemma_crlf_lines_join(first, r2);
        assert(plain(rest[rest.len() - 1]));
        lemma_crlf_lines_append(join_lines(first, r2), rest.last());
        assert((seq![first] + r2).push(rest.last()) =~= seq![first] + rest);
    }
}

/// In joined lines that are all non-empty and hold no line break, every CR
/// is followed by LF and then by something other than CR.
pub proof fn lemma_join_crs(first: Seq<char>, rest: Seq<Seq<char>>)
    requires
        plain(first),
        first.len() > 0,
        forall|i: int| 0 <= i < rest.len() ==> plain(#[trigger] rest[i]) && rest[i].len() > 0,
    ensures
        join_lines(first, rest).len() > 0,
        plain(seq![join_lines(first, rest).last()]),
        forall|q: int|
            0 <= q < join_lines(first, rest).len() && #[trigger] join_lines(first, rest)[q]
                == '\r' ==> q + 2 < join_lines(first, rest).len() && join_lines(first, rest)[q
                + 1] == '\n' && join_lines(first, rest)[q + 2] != '\r',
    decreases rest.len(),
{
    reveal_strlit("\r\n");
    if rest.len() == 0 {
        assert(plain(first));
        assert(first[first.len() - 1] != '\r' && first[first.len() - 1] != '\n');
    } else {
        let r2 = rest.drop_last();
        assert forall|i: int| 0 <= i < r2.len() implies plain(#[trigger] r2[i]) && r2[i].len()
            > 0 by {
            assert(r2[i] == rest[i]);
        }
        lemma_join_crs(first, r2);
        let y = join_lines(first, r2);
        let l = rest.last();
        assert(plain(rest[rest.len() - 1]) && rest[rest.len() - 1].len() > 0);
        let t = join_lines(first, rest);
        assert(t == y + "\r\n"@ + l);
        assert forall|q: int| 0 <= q < t.len() && #[trigger] t[q] == '\r' implies q + 2 < t.len()
            && t[q + 1] == '\n' && t[q + 2] != '\r' by {
            if q < y.len() {
                assert(t[q] == y[q]);
                assert(y[q] == '\r');
                if q + 2 < y.len() {
                    assert(t[q + 1] == y[q + 1]);
                    assert(t[q + 2] == y[q + 2]);
                }
            } else if q == y.len() {
                assert(t[q + 1] == '\n');
                assert(t[q + 2] == l[0]);
            } else if q == y.len() + 1 {
                assert(t[q] == '\n');
            } else {
                assert(t[q] == l[q - y.len() - 2]);
            }
        }
        assert(t.last() == l.last());
        assert(l[l.len() - 1] != '\r' && l[l.len() - 1] != '\n');
    }
}

/// Split a text into its CR LF separated lines.
pub fn split_lines(s: &str) -> (r: Vec<String>)
    ensures
        r@.map_values(|l: String| l@) == crlf_lines(s@),
        r@.len() >= 1,
{
    let n = s.unicode_len();
    let mut out: Vec<String> = Vec::new();
    let mut start: usize = 0;
    let mut i: usize = 0;
    proof {
        assert(s@.subrange(0, 0) =~= Seq::<char>::empty());
        assert(out@.map_values(|l: String| l@).push(s@.subrange(0, 0)) =~= seq![
            Seq::<char>::empty(),
        ]);
    }
    while i < n
        invariant
            n == s@.len(),
            start <= i <= n,
            start == 0 || s@[start - 1] == '\n',
            i > start && i < n ==> !(s@[i - 1] == '\r' && s@[i as int] == '\n'),
            crlf_lines(s@.subrange(0, i as int)) == out@.map_values(|l: String| l@).push(
                s@.subrange(start as int, i as int),
            ),
        decreases n - i,
    {
        let ghost before = out@.map_values(|l: String| l@);
        if i + 1 < n && s.get_char(i) == '\r' && s.get_char(i + 1) == '\n' {
            let line = String::from_str(s.substring_char(start, i));
            out.push(line);
            proof {
                let t = s@.subrange(0, i + 2);
                assert(t.subrange(0, t.len() - 2) =~= s@.subrange(0, i as int));
                assert(out@.map_values(|l: String| l@) =~= before.push(
                    s@.subrange(start as int, i as int),
                ));
                assert(s@.subrange(i + 2, i + 2) =~= Seq::<char>::empty());
            }
            i = i + 2;
            start = i;
        } else {
            proof {
                let t = s@.subrange(0, i + 1);
                assert(t.drop_last() =~= s@.subrange(0, i as int));
                assert(t.last() == s@[i as int]);
                assert(s@.subrange(start as int, i as int).push(s@[i as int]) =~= s@.subrange(
                    start as int,
                    i + 1,
                ));
                assert(before.push(s@.subrange(start as int, i as int)).update(
                    before.len() as int,
                    s@.subrange(start as int, i as int).push(s@[i as int]),
                ) =~= before.push(s@.subrange(start as int, i + 1)));
            }
            i = i + 1;
        }
    }
    let last = String::from_str(s.substring_char(start, n));
    let ghost before = out@.map_values(|l: String| l@);
    out.push(last);
    proof {
        assert(s@.subrange(0, n as int) =~= s@);
        assert(out@.map_values(|l: String| l@) =~= before.push(
            s@.subrange(start as int, n as int),
        ));
    }
    out
}

/// The text before the first `c` and the text after it, or `None` when
/// `c` does not occur (`str::split_once` with a character).
pub open spec fn split_once(s: Seq<char>, c: char) -> Option<(Seq<char>, Seq<char>)> {
    let a = before_first(s, c);
    if a.len() < s.len() {
        Some((a, s.subrange(a.len() + 1 as int, s.len() as int)))
    } else {
        None
    }
}

/// Split a text at the first `c`.
pub fn split_at_first(s: &str, c: char) -> (r: Option<(String, String)>)
    ensures
        r matches Some(p) ==> split_once(s@, c) == Some((p.0@, p.1@)),
        r is None ==> split_once(s@, c) is None,
{
    let n = s.unicode_len();
    let mut i: usize = 0;
    while i < n
        invariant
            n == s@.len(),
            i <= n,
            forall|j: int| 0 <= j < i ==> s@[j] != c,
        ensures
            i <= n,
            forall|j: int| 0 <= j < i ==> s@[j] != c,
            i == n || s@[i as int] == c,
        decreases n - i,
    {
        if s.get_char(i) == c {
            break;
        }
        i = i + 1;
    }
    proof {
        lemma_before_first(s@, c, i as int);
    }
    if i == n {
        None
    } else {
        let a = String::from_str(s.substring_char(0, i));
        let b = String::from_str(s.substring_char(i + 1, n));
        Some((a, b))
    }
}

/// The name and value of a header line `name: value`, each without
/// surrounding white space; `None` when the line has no colon.
pub open spec fn header_of(l: Seq<char>) -> Option<(Seq<char>, Seq<char>)> {
    match split_once(l, ':') {
        Some(p) => Some((trimmed(p.0), trimmed(p.1))),
        None => None,
    }
}

/// The headers that a run of header lines gives, each line inserted in
/// turn; the first line without a colon is the error.
pub open spec fn parse_header_lines(lines: Seq<Seq<char>>) -> Result<HeaderSeq, Seq<char>>
    decreases lines.len(),
{
    if lines.len() == 0 {
        Ok(Seq::empty())
    } else {
        match parse_header_lines(lines.drop_last()) {
            Err(l) => Err(l),
            Ok(h) => match header_of(lines.last()) {
                Some(p) => Ok(spec_insert(h, p.0, p.1)),
                None => Err(lines.last()),
            },
        }
    }
}

/// A bad line stays the error whatever lines follow it.
pub proof fn lemma_header_error_persists(lines: Seq<Seq<char>>, k: int)
    requires
        0 <= k <= lines.len(),
        parse_header_lines(lines.subrange(0, k)) is Err,
    ensures
        parse_header_lines(lines) == parse_header_lines(lines.subrange(0, k)),
    decreases lines.len(),
{
    if k < lines.len() {
        assert(lines.drop_last().subrange(0, k) =~= lines.subrange(0, k));
        lemma_header_error_persists(lines.drop_last(), k);
    } else {
        assert(lines.subrange(0, k) =~= lines);
    }
}

/// Parse the header lines `lines[from..]`.
pub fn parse_headers(lines: &Vec<String>, from: usize) -> (r: Result<Headers, String>)
    requires
        from <= lines@.len(),
    ensures
        r matches Ok(h) ==> parse_header_lines(
            lines@.map_values(|l: String| l@).subrange(from as int, lines@.len() as int),
        ) == Ok::<HeaderSeq, Seq<char>>(h@),
        r matches Err(e) ==> parse_header_lines(
            lines@.map_values(|l: String| l@).subrange(from as int, lines@.len() as int),
        ) == Err::<HeaderSeq, Seq<char>>(e@),
{
    let ghost ls = lines@.map_values(|l: String| l@);
    let mut headers = Headers::new();
    let mut j: usize = from;
    proof {
        assert(ls.subrange(from as int, from as int) =~= Seq::<Seq<char>>::empty());
    }
    while j < lines.len()
        invariant
            from <= j <= lines@.len(),
            ls == lines@.map_values(|l: String| l@),
            parse_header_lines(ls.subrange(from as int, j as int)) == Ok::<HeaderSeq, Seq<char>>(
                headers@,
            ),
        decreases lines@.len() - j,
    {
        let line = &lines[j];
        let ghost part = ls.subrange(from as int, j + 1);
        proof {
            assert(part.drop_last() =~= ls.subrange(from as int, j as int));
            assert(part.last() == line@);
        }
        match split_at_first(line.as_str(), ':') {
            Some(p) => {
                let name = trim(p.0.as_str());
                let value = trim(p.1.as_str());
                headers.insert(name, value);
            },
            None => {
                proof {
                    let all = ls.subrange(from as int, lines@.len() as int);
                    assert(all.subrange(0, j + 1 - from) =~= part);
                    lemma_header_error_persists(all, j + 1 - from);
                }
                return Err(line.clone());
            },
        }
        j = j + 1;
    }
    Ok(headers)
}

/// The length of the body that the headers announce: 0 without a
/// `Content-Length` header, its value when that is a number that fits in
/// `usize`, and otherwise the value as an error.
pub open spec fn body_length(h: HeaderSeq) -> Result<nat, Seq<char>> {
    match spec_get(h, names::CONTENT_LENGTH@) {
        None => Ok(0),
        Some(v) => match unsigned_value(v) {
            Some(n) => if n <= usize::MAX {
                Ok(n)
            } else {
                Err(v)
            },
            None => Err(v),
        },
    }
}

/// Read the body length from the headers.
pub fn body_length_of(h: &Headers) -> (r: Result<usize, String>)
    ensures
        r matches Ok(n) ==> body_length(h@) == Ok::<nat, Seq<char>>(n as nat),
        r matches Err(v) ==> body_length(h@) == Err::<nat, Seq<char>>(v@),
{
    match h.get(names::CONTENT_LENGTH) {
        None => Ok(0),
        Some(v) => match parse_u64(v) {
            Some(n) => if n <= usize::MAX as u64 {
                Ok(n as usize)
            } else {
                Err(String::from_str(v))
            },
            None => Err(String::from_str(v)),
        },
    }
}

/// Whether a protocol version names RTSP (`RTSP/` and the version).
pub open spec fn is_rtsp_version(v: Seq<char>) -> bool {
    v.len() >= 5 && v.subrange(0, 5) == "RTSP/"@
}

/// Check that a protocol version names RTSP.
pub fn rtsp_version(v: &str) -> (r: bool)
    ensures
        r == is_rtsp_version(v@),
{
    v.unicode_len() >= 5 && str_eq(v.substring_char(0, 5), "RTSP/")
}

} // verus!
