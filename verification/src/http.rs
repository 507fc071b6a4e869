//! HTTP/1.1 over bytes: the head of a request, and the body of a response in
//! each of its three framings.
use vstd::prelude::*;
use vstd::utf8::*;

use crate::chars;
use crate::chars::CharSet;
use crate::foreign;
use crate::foreign::{debug_quoted, utf8_complaint};
use crate::numbers;
use crate::text;

verus! {

/// A request. `timeout` is in seconds.
pub struct Request<'a> {
    pub method: &'a str,
    pub scheme: &'a str,
    pub host: &'a str,
    pub port: u16,
    pub path: &'a str,
    pub headers: &'a [(&'a str, &'a str)],
    pub body: &'a [u8],
    pub timeout: u64,
}

/// One header line.
pub open spec fn header_line(name: Seq<char>, value: Seq<char>) -> Seq<char> {
    name + ": "@ + value + "\r\n"@
}

/// The header lines one after the other.
pub open spec fn header_lines(headers: Seq<(&str, &str)>) -> Seq<char>
    decreases headers.len(),
{
    if headers.len() == 0 {
        seq![]
    } else {
        header_lines(headers.drop_last()) + header_line(headers.last().0@, headers.last().1@)
    }
}

/// Whether a header of that name is among the headers, up to case.
pub open spec fn has_header(headers: Seq<(&str, &str)>, name: Seq<char>) -> bool {
    exists|i: int|
        0 <= i < headers.len() && chars::lower((#[trigger] headers[i]).0@) == chars::lower(name)
}

/// The head of a request: request line, host, the given headers, and the length
/// and connection headers where they were not given.
pub open spec fn request_head(req: Request) -> Seq<char> {
    req.method@ + " "@ + req.path@ + " HTTP/1.1\r\n"@ + "Host: "@ + req.host@ + "\r\n"@
        + header_lines(req.headers@) + (if has_header(req.headers@, "Content-Length"@) {
        ""@
    } else {
        "Content-Length: "@ + numbers::decimal(req.body@.len()) + "\r\n"@
    }) + (if has_header(req.headers@, "Connection"@) {
        ""@
    } else {
        "Connection: close\r\n"@
    }) + "\r\n"@
}

/// The text of the head of a request.
pub fn format_request_head(req: &Request) -> (r: String)
    ensures
        r@ == request_head(*req),
{
    let mut head = req.method.to_owned();
    head.append(" ");
    head.append(req.path);
    head.append(" HTTP/1.1\r\n");
    head.append("Host: ");
    head.append(req.host);
    head.append("\r\n");
    let ghost start = head@;
    let mut have_length = false;
    let mut have_connection = false;
    let mut i: usize = 0;
    let ghost all = req.headers@;
    assert(all.take(0) =~= Seq::empty());
    assert(head@ =~= start + header_lines(all.take(0)));
    while i < req.headers.len()
        invariant
            i <= req.headers.len(),
            all == req.headers@,
            head@ == start + header_lines(all.take(i as int)),
            have_length == has_header(all.take(i as int), "Content-Length"@),
            have_connection == has_header(all.take(i as int), "Connection"@),
        decreases req.headers.len() - i,
    {
        let ghost before = head@;
        let header = req.headers[i];
        let ghost part = all.take(i + 1);
        proof {
            assert(part.drop_last() =~= all.take(i as int));
            lemma_has_header(part, "Content-Length"@);
            lemma_has_header(part, "Connection"@);
        }
        if text::same_ignoring_case(header.0, "Content-Length") {
            have_length = true;
        }
        if text::same_ignoring_case(header.0, "Connection") {
            have_connection = true;
        }
        head.append(header.0);
        head.append(": ");
        head.append(header.1);
        head.append("\r\n");
        assert(head@ =~= before + header_line(header.0@, header.1@));
        assert(head@ =~= start + header_lines(part));
        i += 1;
    }
    assert(all.take(i as int) =~= all);
    if have_length {
        head.append("");
    } else {
        let mut line = "Content-Length: ".to_owned();
        line.append(numbers::usize_text(req.body.len()).as_str());
        line.append("\r\n");
        head.append(line.as_str());
    }
    if have_connection {
        head.append("");
    } else {
        head.append("Connection: close\r\n");
    }
    head.append("\r\n");
    head
}

proof fn lemma_has_header(headers: Seq<(&str, &str)>, name: Seq<char>)
    requires
        headers.len() > 0,
    ensures
        has_header(headers, name) == (has_header(headers.drop_last(), name) || chars::lower(
            headers.last().0@,
        ) == chars::lower(name)),
{
    let init = headers.drop_last();
    if has_header(headers, name) {
        let i = choose|i: int|
            0 <= i < headers.len() && chars::lower((#[trigger] headers[i]).0@) == chars::lower(
                name,
            );
        if i < init.len() {
            assert(init[i] == headers[i]);
        }
    }
    if has_header(init, name) {
        let i = choose|i: int|
            0 <= i < init.len() && chars::lower((#[trigger] init[i]).0@) == chars::lower(name);
        assert(headers[i] == init[i]);
    }
    if chars::lower(headers.last().0@) == chars::lower(name) {
        assert(headers[headers.len() - 1] == headers.last());
    }
}

// ---------------------------------------------------------------------------
// Responses
// ---------------------------------------------------------------------------

/// Whether the bytes start with a pattern.
pub open spec fn begins(bytes: Seq<u8>, p: Seq<u8>) -> bool {
    p.len() <= bytes.len() && bytes.take(p.len() as int) == p
}

/// Position of the first occurrence of a non-empty pattern.
pub open spec fn first_match(bytes: Seq<u8>, p: Seq<u8>) -> Option<nat>
    decreases bytes.len(),
{
    if p.len() == 0 || bytes.len() < p.len() {
        None
    } else if begins(bytes, p) {
        Some(0)
    } else {
        match first_match(bytes.skip(1), p) {
            Some(i) => Some(i + 1),
            None => None,
        }
    }
}

/// A text read from UTF-8 bytes, or the complaint behind a prefix.
pub open spec fn utf8_or(bytes: Seq<u8>, prefix: Seq<char>) -> Result<Seq<char>, Seq<char>> {
    if valid_utf8(bytes) {
        Ok(decode_utf8(bytes))
    } else {
        Err(prefix + utf8_complaint(bytes))
    }
}

/// The text of a chunk's size: its line up to a semicolon, trimmed.
pub open spec fn size_text(line: Seq<char>) -> Seq<char> {
    chars::trim(line.take(chars::until(line, CharSet::Only(';')) as int))
}

/// The bytes of a chunked body, after the bytes in `out`, up to the chunk of
/// size 0.
pub open spec fn chunks(raw: Seq<u8>, out: Seq<u8>) -> Result<Seq<u8>, Seq<char>>
    decreases raw.len(),
{
    match first_match(raw, seq![13u8, 10u8]) {
        None => Err("chunked: missing size CRLF"@),
        Some(crlf) => match utf8_or(raw.take(crlf as int), "chunked: size not utf8: "@) {
            Err(e) => Err(e),
            Ok(line) => match numbers::unsigned_value(size_text(line), 16, usize::MAX as nat) {
                Err(e) => Err(
                    "chunked: bad size "@ + debug_quoted(size_text(line)) + ": "@ + e.words(),
                ),
                Ok(size) => {
                    let rest = raw.skip((crlf + 2) as int);
                    if size == 0 {
                        Ok(out)
                    } else if rest.len() < size + 2 || crlf + 2 > raw.len() {
                        Err("chunked: truncated chunk"@)
                    } else {
                        chunks(rest.skip((size + 2) as int), out + rest.take(size as int))
                    }
                },
            },
        },
    }
}

/// The text of a chunked body.
pub open spec fn chunked_text(raw: Seq<u8>) -> Result<Seq<char>, Seq<char>> {
    match chunks(raw, seq![]) {
        Ok(bytes) => utf8_or(bytes, "chunked: body not utf8: "@),
        Err(e) => Err(e),
    }
}

/// How the body of a response is delimited.
pub ghost struct Framing {
    pub chunked: bool,
    pub content_length: Option<nat>,
}

/// Whether one of the transfer codings in the list is `chunked`.
pub open spec fn names_chunked(value: Seq<char>) -> bool {
    let codings = chars::pieces(value, CharSet::Only(','));
    exists|i: int|
        0 <= i < codings.len() && chars::lower(chars::trim(#[trigger] codings[i])) == chars::lower(
            "chunked"@,
        )
}

/// The framing after one more header line. A later length header replaces an
/// earlier one, even where it is no number.
pub open spec fn framed(f: Framing, line: Seq<char>) -> Framing {
    match chars::around(line, ":"@) {
        None => f,
        Some((name, value)) => {
            let name_lc = chars::lower(chars::trim(name));
            let v = chars::trim(value);
            if name_lc == "transfer-encoding"@ {
                Framing { chunked: f.chunked || names_chunked(v), ..f }
            } else if name_lc == "content-length"@ {
                Framing {
                    content_length: match numbers::unsigned_value(v, 10, usize::MAX as nat) {
                        Ok(n) => Some(n),
                        Err(_) => None,
                    },
                    ..f
                }
            } else {
                f
            }
        },
    }
}

/// The framing that a sequence of header lines describes.
pub open spec fn framing(lines: Seq<Seq<char>>) -> Framing
    decreases lines.len(),
{
    if lines.len() == 0 {
        Framing { chunked: false, content_length: None }
    } else {
        framed(framing(lines.drop_last()), lines.last())
    }
}

/// The text of a body under a framing.
pub open spec fn body_text(body: Seq<u8>, f: Framing) -> Result<Seq<char>, Seq<char>> {
    if f.chunked {
        chunked_text(body)
    } else {
        match f.content_length {
            Some(n) => utf8_or(
                body.take(
                    if n < body.len() {
                        n as int
                    } else {
                        body.len() as int
                    },
                ),
                "http: body not utf8: "@,
            ),
            None => utf8_or(body, "http: body not utf8: "@),
        }
    }
}

/// The status code of a head, or what is wrong with its status line.
pub open spec fn status_code(lines: Seq<Seq<char>>) -> Result<nat, Seq<char>> {
    let parts = chars::pieces(lines[0], CharSet::Only(' '));
    if parts.len() < 2 {
        Err("http: status line missing code"@)
    } else {
        match numbers::unsigned_value(parts[1], 10, 65535) {
            Ok(n) => Ok(n),
            Err(e) => Err(
                "http: bad status code "@ + debug_quoted(parts[1]) + ": "@ + e.words(),
            ),
        }
    }
}

/// The body of a response with a status in the 200s; else an error that tells
/// the status and the body, or what is wrong with the response.
pub open spec fn response_text(raw: Seq<u8>) -> Result<Seq<char>, Seq<char>> {
    match first_match(raw, seq![13u8, 10u8, 13u8, 10u8]) {
        None => Err("http: response had no header terminator"@),
        Some(end) => match utf8_or(raw.take(end as int), "http: header not utf8: "@) {
            Err(e) => Err(e),
            Ok(head) => {
                let lines = chars::split(head, "\r\n"@);
                match status_code(lines) {
                    Err(e) => Err(e),
                    Ok(status) => match body_text(raw.skip((end + 4) as int), framing(lines.skip(1))) {
                        Err(e) => Err(e),
                        Ok(body) => if 200 <= status < 300 {
                            Ok(body)
                        } else {
                            Err("HTTP "@ + numbers::decimal(status) + ": "@ + body)
                        },
                    },
                }
            },
        },
    }
}

/// A result of text by its view.
pub open spec fn text_result(r: Result<String, String>) -> Result<Seq<char>, Seq<char>> {
    match r {
        Ok(s) => Ok(s@),
        Err(e) => Err(e@),
    }
}

/// Position of the first occurrence of a non-empty pattern.
pub fn find_subsequence(haystack: &[u8], needle: &[u8]) -> (r: Option<usize>)
    ensures
        match r {
            Some(i) => first_match(haystack@, needle@) == Some(i as nat) && i + needle@.len()
                <= haystack@.len(),
            None => first_match(haystack@, needle@) is None,
        },
{
    let n: usize = haystack.len();
    let m: usize = needle.len();
    let ghost h = haystack@;
    let ghost p = needle@;
    assert(h.skip(0) =~= h);
    if m == 0 || n < m {
        return None;
    }
    let mut i: usize = 0;
    while i <= n - m
        invariant
            n == h.len(),
            m == p.len(),
            h == haystack@,
            p == needle@,
            0 < m <= n,
            i <= n - m + 1,
            first_match(h, p) == (match first_match(h.skip(i as int), p) {
                Some(k) => Some((i + k) as nat),
                None => None::<nat>,
            }),
        decreases n - m + 1 - i,
    {
        let mut j: usize = 0;
        while j < m && haystack[i + j] == needle[j]
            invariant
                n == h.len(),
                m == p.len(),
                h == haystack@,
                p == needle@,
                i <= n - m,
                j <= m <= n,
                forall|k: int| 0 <= k < j ==> h[i + k] == p[k],
            decreases m - j,
        {
            j += 1;
        }
        let ghost rest = h.skip(i as int);
        assert(rest.skip(1) =~= h.skip(i + 1));
        if j == m {
            assert(rest.take(m as int) =~= p);
            return Some(i);
        }
        assert(rest.take(m as int)[j as int] == h[i + j]);
        assert(!begins(rest, p));
        i += 1;
    }
    None
}

/// The text of a chunked body.
pub fn decode_chunked(raw: &[u8]) -> (r: Result<String, String>)
    ensures
        text_result(r) == chunked_text(raw@),
{
    let n: usize = raw.len();
    let crlf_bytes: [u8; 2] = [13, 10];
    let mut out: Vec<u8> = Vec::new();
    let mut pos: usize = 0;
    assert(raw@.skip(0) =~= raw@);
    assert(crlf_bytes@ =~= seq![13u8, 10u8]);
    loop
        invariant
            pos <= n,
            n == raw@.len(),
            crlf_bytes@ == seq![13u8, 10u8],
            chunks(raw@, seq![]) == chunks(raw@.skip(pos as int), out@),
        decreases n - pos,
    {
        let rest = vstd::slice::slice_subrange(raw, pos, n);
        assert(rest@ =~= raw@.skip(pos as int));
        let crlf: usize = match find_subsequence(rest, crlf_bytes.as_slice()) {
            Some(i) => i,
            None => {
                return Err("chunked: missing size CRLF".to_owned());
            },
        };
        let line_bytes = vstd::slice::slice_subrange(rest, 0, crlf);
        assert(line_bytes@ =~= rest@.take(crlf as int));
        let line = match foreign::utf8_text(line_bytes) {
            Ok(line) => line,
            Err(e) => {
                return Err("chunked: size not utf8: ".to_owned().concat(e.as_str()));
            },
        };
        let line_chars = text::chars_of(line);
        let semi: usize = text::until(&line_chars, 0, CharSet::Only(';'));
        proof {
            assert(line@.skip(0) =~= line@);
            chars::lemma_until(line@, CharSet::Only(';'));
        }
        let size_field = text::trim(line.substring_char(0, semi));
        assert(line@.subrange(0, semi as int) =~= line@.take(semi as int));
        let size: u64 = match numbers::parse_unsigned(size_field, 16, usize::MAX as u64) {
            Ok(size) => size,
            Err(e) => {
                let mut msg = "chunked: bad size ".to_owned();
                msg.append(foreign::debug_text(size_field).as_str());
                msg.append(": ");
                msg.append(e.message());
                return Err(msg);
            },
        };
        let start: usize = pos + crlf + 2;
        let ghost tail = rest@.skip(crlf + 2);
        assert(tail =~= raw@.skip(start as int));
        if size == 0 {
            return match foreign::utf8_text(out.as_slice()) {
                Ok(s) => Ok(s.to_owned()),
                Err(e) => Err("chunked: body not utf8: ".to_owned().concat(e.as_str())),
            };
        }
        let left: usize = n - start;
        if left < 2 || ((left - 2) as u64) < size {
            return Err("chunked: truncated chunk".to_owned());
        }
        let size: usize = size as usize;
        let ghost before = out@;
        let mut k: usize = 0;
        assert(out@ =~= before + tail.take(0));
        while k < size
            invariant
                k <= size,
                start + size + 2 <= n,
                n == raw@.len(),
                tail == raw@.skip(start as int),
                out@ == before + tail.take(k as int),
            decreases size - k,
        {
            out.push(raw[start + k]);
            assert(tail.take(k + 1) =~= tail.take(k as int).push(raw@[start + k]));
            assert(out@ =~= before + tail.take(k + 1));
            k += 1;
        }
        assert(tail.skip(size + 2) =~= raw@.skip(start + size + 2));
        pos = start + size + 2;
    }
}

fn has_chunked(value: &str) -> (r: bool)
    ensures
        r == names_chunked(value@),
{
    let codings = text::pieces(value, CharSet::Only(','));
    let ghost all = chars::texts(codings@);
    let mut i: usize = 0;
    while i < codings.len()
        invariant
            i <= codings.len(),
            all == chars::texts(codings@),
            all == chars::pieces(value@, CharSet::Only(',')),
            forall|k: int|
                0 <= k < i ==> chars::lower(chars::trim(#[trigger] all[k])) != chars::lower(
                    "chunked"@,
                ),
        decreases codings.len() - i,
    {
        if text::same_ignoring_case(text::trim(codings[i]), "chunked") {
            assert(all[i as int] == codings@[i as int]@);
            return true;
        }
        i += 1;
    }
    false
}

/// The framing that the header lines from number `from` describe.
fn read_framing(lines: &Vec<&str>) -> (r: (bool, Option<usize>))
    requires
        lines@.len() > 0,
    ensures
        framing(chars::texts(lines@).skip(1)) == (Framing {
            chunked: r.0,
            content_length: match r.1 {
                Some(n) => Some(n as nat),
                None => None,
            },
        }),
{
    let ghost all = chars::texts(lines@);
    let mut chunked = false;
    let mut content_length: Option<usize> = None;
    let mut i: usize = 1;
    assert(all.subrange(1, 1) =~= Seq::empty());
    while i < lines.len()
        invariant
            1 <= i <= lines.len(),
            all == chars::texts(lines@),
            framing(all.subrange(1, i as int)) == (Framing {
                chunked,
                content_length: match content_length {
                    Some(n) => Some(n as nat),
                    None => None,
                },
            }),
        decreases lines.len() - i,
    {
        assert(all.subrange(1, i + 1).drop_last() =~= all.subrange(1, i as int));
        match text::around(lines[i], ":") {
            Some((name, value)) => {
                let name_lc = text::lower(text::trim(name));
                let v = text::trim(value);
                if text::same(name_lc.as_str(), "transfer-encoding") {
                    if has_chunked(v) {
                        chunked = true;
                    }
                } else if text::same(name_lc.as_str(), "content-length") {
                    content_length = numbers::parse_usize(v);
                }
            },
            None => {},
        }
        i += 1;
    }
    assert(all.subrange(1, i as int) =~= all.skip(1));
    (chunked, content_length)
}

fn read_status(lines: &Vec<&str>) -> (r: Result<u16, String>)
    requires
        lines@.len() > 0,
    ensures
        match r {
            Ok(n) => status_code(chars::texts(lines@)) == Ok::<nat, Seq<char>>(n as nat),
            Err(e) => status_code(chars::texts(lines@)) == Err::<nat, Seq<char>>(e@),
        },
{
    let parts = text::pieces(lines[0], CharSet::Only(' '));
    assert(chars::texts(lines@)[0] == lines@[0]@);
    if parts.len() < 2 {
        return Err("http: status line missing code".to_owned());
    }
    assert(chars::texts(parts@)[1] == parts@[1]@);
    match numbers::parse_unsigned(parts[1], 10, 65535) {
        Ok(n) => Ok(n as u16),
        Err(e) => {
            let mut msg = "http: bad status code ".to_owned();
            msg.append(foreign::debug_text(parts[1]).as_str());
            msg.append(": ");
            msg.append(e.message());
            Err(msg)
        },
    }
}

fn text_or(bytes: &[u8], prefix: &str) -> (r: Result<String, String>)
    ensures
        text_result(r) == utf8_or(bytes@, prefix@),
{
    match foreign::utf8_text(bytes) {
        Ok(s) => Ok(s.to_owned()),
        Err(e) => Err(prefix.to_owned().concat(e.as_str())),
    }
}

/// The body of a response with a status in the 200s, or an error.
pub fn parse_response(raw: &[u8]) -> (r: Result<String, String>)
    ensures
        text_result(r) == response_text(raw@),
{
    let n: usize = raw.len();
    let end_mark: [u8; 4] = [13, 10, 13, 10];
    assert(end_mark@ =~= seq![13u8, 10u8, 13u8, 10u8]);
    let end: usize = match find_subsequence(raw, end_mark.as_slice()) {
        Some(i) => i,
        None => {
            return Err("http: response had no header terminator".to_owned());
        },
    };
    let head_bytes = vstd::slice::slice_subrange(raw, 0, end);
    assert(head_bytes@ =~= raw@.take(end as int));
    let head = match text_or(head_bytes, "http: header not utf8: ") {
        Ok(head) => head,
        Err(e) => {
            return Err(e);
        },
    };
    let body = vstd::slice::slice_subrange(raw, end + 4, n);
    assert(body@ =~= raw@.skip(end + 4));
    proof {
        reveal_strlit("\r\n");
        chars::lemma_split_not_empty(head@, "\r\n"@);
    }
    let lines = text::split(head.as_str(), "\r\n");
    assert(lines@.len() == chars::texts(lines@).len());
    let status: u16 = match read_status(&lines) {
        Ok(status) => status,
        Err(e) => {
            return Err(e);
        },
    };
    let (chunked, content_length) = read_framing(&lines);
    let decoded = if chunked {
        decode_chunked(body)
    } else {
        match content_length {
            Some(len) => {
                let m: usize = if len < body.len() {
                    len
                } else {
                    body.len()
                };
                let part = vstd::slice::slice_subrange(body, 0, m);
                assert(part@ =~= body@.take(m as int));
                text_or(part, "http: body not utf8: ")
            },
            None => text_or(body, "http: body not utf8: "),
        }
    };
    let body_text = match decoded {
        Ok(t) => t,
        Err(e) => {
            return Err(e);
        },
    };
    if status < 200 || status >= 300 {
        let mut msg = "HTTP ".to_owned();
        msg.append(numbers::decimal_of(status as u64).as_str());
        msg.append(": ");
        msg.append(body_text.as_str());
        return Err(msg);
    }
    Ok(body_text)
}

// ---------------------------------------------------------------------------
// Laws
// ---------------------------------------------------------------------------

/// Bytes without a carriage return are followed by the first line break.
proof fn lemma_line_break(line: Seq<u8>, rest: Seq<u8>)
    requires
        forall|i: int| 0 <= i < line.len() ==> #[trigger] line[i] != 13u8,
    ensures
        first_match(line + (seq![13u8, 10u8] + rest), seq![13u8, 10u8]) == Some(line.len()),
    decreases line.len(),
{
    let p = seq![13u8, 10u8];
    let s = line + (p + rest);
    if line.len() == 0 {
        assert(s.take(2) =~= p);
    } else {
        assert(s[0] == line[0]);
        if begins(s, p) {
            assert(s.take(2)[0] == p[0]);
        }
        assert(s.skip(1) =~= line.skip(1) + (p + rest));
        lemma_line_break(line.skip(1), rest);
    }
}

/// A chunk is taken whole: behind a line that tells its size, its bytes are the
/// next ones of the body, whatever they are, and the rest is read behind them.
pub proof fn law_chunk_is_taken_whole(
    line: Seq<u8>,
    data: Seq<u8>,
    rest: Seq<u8>,
    out: Seq<u8>,
)
    requires
        forall|i: int| 0 <= i < line.len() ==> #[trigger] line[i] != 13u8,
        valid_utf8(line),
        data.len() > 0,
        numbers::unsigned_value(size_text(decode_utf8(line)), 16, usize::MAX as nat) == Ok::<
            nat,
            numbers::NumberError,
        >(data.len()),
    ensures
        chunks(line + (seq![13u8, 10u8] + (data + (seq![13u8, 10u8] + rest))), out) == chunks(
            rest,
            out + data,
        ),
{
    let p = seq![13u8, 10u8];
    let tail = data + (p + rest);
    let raw = line + (p + tail);
    lemma_line_break(line, tail);
    let k = line.len() as int;
    assert(raw.take(k) =~= line);
    assert(raw.skip(k + 2) =~= tail);
    assert(tail.take(data.len() as int) =~= data);
    assert(tail.skip(data.len() as int + 2) =~= rest);
}

/// The chunk of size 0 ends the body.
pub proof fn law_last_chunk_ends_body(line: Seq<u8>, rest: Seq<u8>, out: Seq<u8>)
    requires
        forall|i: int| 0 <= i < line.len() ==> #[trigger] line[i] != 13u8,
        valid_utf8(line),
        numbers::unsigned_value(size_text(decode_utf8(line)), 16, usize::MAX as nat) == Ok::<
            nat,
            numbers::NumberError,
        >(0),
    ensures
        chunks(line + (seq![13u8, 10u8] + rest), out) == Ok::<Seq<u8>, Seq<char>>(out),
{
    lemma_line_break(line, rest);
    assert((line + (seq![13u8, 10u8] + rest)).take(line.len() as int) =~= line);
}

/// A response succeeds only with a status in the 200s.
pub proof fn law_success_is_in_the_200s(raw: Seq<u8>)
    ensures
        response_text(raw) is Ok ==> {
            let end = first_match(raw, seq![13u8, 10u8, 13u8, 10u8]);
            &&& end is Some
            &&& valid_utf8(raw.take(end->0 as int))
            &&& status_code(chars::split(decode_utf8(raw.take(end->0 as int)), "\r\n"@)) matches Ok(
                status,
            ) && 200 <= status < 300
        },
{
}

}
