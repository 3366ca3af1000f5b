//! Reading and writing MCP messages on a byte stream: either one JSON text
//! per line, or a `Content-Length` header block followed by the body.
use vstd::prelude::*;
use vstd::slice::{slice_subrange, slice_to_vec};
use vstd::string::{StrSliceExecFns, StringExecFns};
use vstd::utf8::*;

use crate::text::{
    ascii_lower, chars_of, decimal, eq_ignore_ascii_case, int_error_message, int_error_text,
    is_space, lemma_decimal_shape, lemma_leading_space_step, lemma_parse_decimal, leading_space,
    parse_usize, parse_usize_text, same_text_ignoring_case, trailing_space, trim, trim_text,
    utf8_text, IntError,
};

verus! {

/// One message taken from the stream, before it is parsed as JSON.
#[derive(Debug)]
pub enum Frame {
    /// A line that started with `{` or `[`, trimmed.
    Line(String),
    /// The body that a `Content-Length` header announced.
    Body(Vec<u8>),
}

pub enum FrameV {
    Line(Seq<char>),
    Body(Seq<u8>),
}

impl View for Frame {
    type V = FrameV;

    open spec fn view(&self) -> FrameV {
        match self {
            Frame::Line(s) => FrameV::Line(s@),
            Frame::Body(b) => FrameV::Body(b@),
        }
    }
}

/// What the bytes received so far say about the next message.
#[derive(Debug)]
pub enum Decoded {
    /// The next message is not complete yet: read more.
    NeedMore,
    /// The stream ended before another message began.
    End,
    /// A message, and the number of bytes it took from the stream.
    Message(Frame, usize),
    /// The stream cannot be read as MCP messages.
    Failed(String),
}

pub enum DecodedV {
    NeedMore,
    End,
    Message(FrameV, int),
    Failed(Seq<char>),
}

impl View for Decoded {
    type V = DecodedV;

    open spec fn view(&self) -> DecodedV {
        match self {
            Decoded::NeedMore => DecodedV::NeedMore,
            Decoded::End => DecodedV::End,
            Decoded::Message(f, n) => DecodedV::Message(f@, *n as int),
            Decoded::Failed(m) => DecodedV::Failed(m@),
        }
    }
}

/// The bytes skipped before a message.
pub open spec fn is_frame_space(b: u8) -> bool {
    b == 0x20 || b == 0x09 || b == 0x0d || b == 0x0a
}

/// The first position at or after `pos` that is not skipped space.
pub open spec fn skip_space(buf: Seq<u8>, pos: int) -> int
    decreases buf.len() - pos,
{
    if 0 <= pos < buf.len() && is_frame_space(buf[pos]) {
        skip_space(buf, pos + 1)
    } else {
        pos
    }
}

/// The position of the first newline at or after `pos`.
pub open spec fn newline_from(buf: Seq<u8>, pos: int) -> Option<int>
    decreases buf.len() - pos,
{
    if pos < 0 || pos >= buf.len() {
        None
    } else if buf[pos] == 0x0a {
        Some(pos)
    } else {
        newline_from(buf, pos + 1)
    }
}

/// A line without its trailing carriage returns and newlines.
pub open spec fn strip_line_end(s: Seq<char>) -> Seq<char>
    decreases s.len(),
{
    if s.len() > 0 && (s.last() == '\r' || s.last() == '\n') {
        strip_line_end(s.drop_last())
    } else {
        s
    }
}

/// The position of the first `:` at or after `i`.
pub open spec fn colon_from(s: Seq<char>, i: int) -> Option<int>
    decreases s.len() - i,
{
    if i < 0 || i >= s.len() {
        None
    } else if s[i] == ':' {
        Some(i)
    } else {
        colon_from(s, i + 1)
    }
}

pub open spec fn json_line_error() -> Seq<char> {
    "Failed to read MCP JSON line: stream did not contain valid UTF-8"@
}

pub open spec fn header_line_error() -> Seq<char> {
    "Failed to read MCP header line: stream did not contain valid UTF-8"@
}

pub open spec fn missing_length_error() -> Seq<char> {
    "Missing Content-Length header"@
}

pub open spec fn short_body_error() -> Seq<char> {
    "Failed to read MCP message body: failed to fill whole buffer"@
}

pub open spec fn invalid_length_error(value: Seq<char>, e: IntError) -> Seq<char> {
    "Invalid Content-Length value '"@ + value + "': "@ + int_error_text(e)
}

/// A line of JSON text: the message is the line, trimmed.
pub open spec fn line_message(line: Seq<u8>, consumed: int) -> DecodedV {
    if valid_utf8(line) {
        DecodedV::Message(FrameV::Line(trim(decode_utf8(line))), consumed)
    } else {
        DecodedV::Failed(json_line_error())
    }
}

/// The effect of one header line on the announced length: `Content-Length`
/// (in any case) sets it, any other header leaves it.
pub open spec fn header_update(line: Seq<char>, length: Option<nat>) -> Result<
    Option<nat>,
    Seq<char>,
> {
    match colon_from(line, 0) {
        None => Ok(length),
        Some(k) => if eq_ignore_ascii_case(line.take(k), "content-length"@) {
            let value = trim(line.skip(k + 1));
            match parse_usize(value) {
                Ok(n) => Ok(Some(n)),
                Err(e) => Err(invalid_length_error(value, e)),
            }
        } else {
            Ok(length)
        },
    }
}

/// The body that follows the header block, which ends before `start`.
pub open spec fn body_message(buf: Seq<u8>, start: int, length: Option<nat>, eof: bool) -> DecodedV {
    match length {
        None => DecodedV::Failed(missing_length_error()),
        Some(n) => if start + n <= buf.len() {
            DecodedV::Message(FrameV::Body(buf.subrange(start, start + n)), start + n)
        } else if eof {
            DecodedV::Failed(short_body_error())
        } else {
            DecodedV::NeedMore
        },
    }
}

/// The end of the line that starts at `pos`: after its newline, or at the end
/// of a stream that ended without one.
pub open spec fn line_end(buf: Seq<u8>, pos: int, eof: bool) -> Option<int> {
    match newline_from(buf, pos) {
        Some(nl) => Some(nl + 1),
        None => if eof && pos < buf.len() {
            Some(buf.len() as int)
        } else {
            None
        },
    }
}

pub proof fn lemma_newline_from(buf: Seq<u8>, pos: int)
    ensures
        newline_from(buf, pos) matches Some(nl) ==> pos <= nl < buf.len() && buf[nl] == 0x0a,
        newline_from(buf, pos) matches Some(nl) ==> forall|i: int|
            pos <= i < nl ==> buf[i] != 0x0a,
        newline_from(buf, pos) is None && 0 <= pos ==> forall|i: int|
            pos <= i < buf.len() ==> buf[i] != 0x0a,
    decreases buf.len() - pos,
{
    if 0 <= pos < buf.len() && buf[pos] != 0x0a {
        lemma_newline_from(buf, pos + 1);
    }
}

/// The header block from `pos` on, with the length announced so far.
pub open spec fn headers_message(buf: Seq<u8>, pos: int, length: Option<nat>, eof: bool) -> DecodedV
    decreases buf.len() - pos,
{
    if pos < 0 || pos > buf.len() {
        DecodedV::End
    } else {
        match line_end(buf, pos, eof) {
            None => if eof {
                DecodedV::End
            } else {
                DecodedV::NeedMore
            },
            Some(end) => {
                proof {
                    lemma_newline_from(buf, pos);
                }
                let line = buf.subrange(pos, end);
                if !valid_utf8(line) {
                    DecodedV::Failed(header_line_error())
                } else {
                    let text = strip_line_end(decode_utf8(line));
                    if text.len() == 0 {
                        body_message(buf, end, length, eof)
                    } else {
                        match header_update(text, length) {
                            Err(m) => DecodedV::Failed(m),
                            Ok(next) => headers_message(buf, end, next, eof),
                        }
                    }
                }
            },
        }
    }
}

/// What the bytes `buf` received so far (and whether the stream has ended)
/// say about the next message: space is skipped; a message that starts with
/// `{` or `[` is one line; any other is a header block ended by an empty
/// line, followed by as many bytes as its `Content-Length` says.
pub open spec fn decode(buf: Seq<u8>, eof: bool) -> DecodedV {
    let start = skip_space(buf, 0);
    if start >= buf.len() {
        if eof {
            DecodedV::End
        } else {
            DecodedV::NeedMore
        }
    } else if buf[start] == 0x7b || buf[start] == 0x5b {
        match newline_from(buf, start) {
            Some(nl) => line_message(buf.subrange(start, nl + 1), nl + 1),
            None => if eof {
                line_message(buf.subrange(start, buf.len() as int), buf.len() as int)
            } else {
                DecodedV::NeedMore
            },
        }
    } else {
        headers_message(buf, start, None, eof)
    }
}

fn find_newline(buf: &[u8], pos: usize) -> (r: Option<usize>)
    requires
        pos <= buf@.len(),
    ensures
        match r {
            Some(k) => newline_from(buf@, pos as int) == Some(k as int),
            None => newline_from(buf@, pos as int) is None,
        },
{
    let mut i = pos;
    while i < buf.len()
        invariant
            pos <= i <= buf@.len(),
            newline_from(buf@, pos as int) == newline_from(buf@, i as int),
        decreases buf@.len() - i,
    {
        if buf[i] == 0x0a {
            return Some(i);
        }
        i = i + 1;
    }
    None
}

fn strip_line_end_text(s: &str) -> (r: String)
    ensures
        r@ == strip_line_end(s@),
{
    let c = chars_of(s);
    let mut n = c.len();
    assert(s@.take(n as int) =~= s@);
    while n > 0 && (c[n - 1] == '\r' || c[n - 1] == '\n')
        invariant
            c@ == s@,
            n <= c@.len(),
            strip_line_end(s@) == strip_line_end(s@.take(n as int)),
        decreases n,
    {
        assert(s@.take(n as int).drop_last() =~= s@.take(n - 1));
        n = n - 1;
    }
    assert(strip_line_end(s@.take(n as int)) == s@.take(n as int));
    s.substring_char(0, n).to_owned()
}

pub proof fn lemma_colon_from(s: Seq<char>, i: int)
    ensures
        colon_from(s, i) matches Some(k) ==> 0 <= i <= k < s.len() && s[k] == ':',
    decreases s.len() - i,
{
    if 0 <= i < s.len() && s[i] != ':' {
        lemma_colon_from(s, i + 1);
    }
}

fn colon_position(s: &str) -> (r: Option<usize>)
    ensures
        match r {
            Some(k) => colon_from(s@, 0) == Some(k as int),
            None => colon_from(s@, 0) is None,
        },
{
    let c = chars_of(s);
    let mut i: usize = 0;
    while i < c.len()
        invariant
            c@ == s@,
            0 <= i <= c@.len(),
            colon_from(s@, 0) == colon_from(s@, i as int),
        decreases c@.len() - i,
    {
        if c[i] == ':' {
            return Some(i);
        }
        i = i + 1;
    }
    None
}

fn header_update_text(line: &str, length: Option<usize>) -> (r: Result<Option<usize>, String>)
    ensures
        match r {
            Ok(Some(n)) => header_update(line@, length_view(length)) == Ok::<
                Option<nat>,
                Seq<char>,
            >(Some(n as nat)),
            Ok(None) => header_update(line@, length_view(length)) == Ok::<
                Option<nat>,
                Seq<char>,
            >(None),
            Err(m) => header_update(line@, length_view(length)) == Err::<Option<nat>, Seq<char>>(
                m@,
            ),
        },
{
    proof {
        lemma_colon_from(line@, 0);
    }
    match colon_position(line) {
        None => Ok(length),
        Some(k) => {
            let name = line.substring_char(0, k);
            if same_text_ignoring_case(name, "content-length") {
                let n = line.unicode_len();
                let value = trim_text(line.substring_char(k + 1, n));
                assert(line@.subrange(k + 1, n as int) =~= line@.skip(k + 1));
                match parse_usize_text(value.as_str()) {
                    Ok(v) => Ok(Some(v)),
                    Err(e) => {
                        let mut m = "Invalid Content-Length value '".to_owned();
                        m.append(value.as_str());
                        m.append("': ");
                        m.append(int_error_message(&e).as_str());
                        Err(m)
                    },
                }
            } else {
                Ok(length)
            }
        },
    }
}

/// The announced length, by its value.
pub open spec fn length_view(length: Option<usize>) -> Option<nat> {
    match length {
        Some(n) => Some(n as nat),
        None => None,
    }
}

fn body_of(buf: &[u8], start: usize, length: Option<usize>, eof: bool) -> (r: Decoded)
    requires
        start <= buf@.len(),
    ensures
        r@ == body_message(buf@, start as int, length_view(length), eof),
{
    match length {
        None => Decoded::Failed("Missing Content-Length header".to_owned()),
        Some(n) => {
            if n <= buf.len() - start {
                let body = slice_to_vec(slice_subrange(buf, start, start + n));
                Decoded::Message(Frame::Body(body), start + n)
            } else if eof {
                Decoded::Failed(
                    "Failed to read MCP message body: failed to fill whole buffer".to_owned(),
                )
            } else {
                Decoded::NeedMore
            }
        },
    }
}

fn line_of(buf: &[u8], start: usize, end: usize) -> (r: Decoded)
    requires
        start <= end <= buf@.len(),
    ensures
        r@ == line_message(buf@.subrange(start as int, end as int), end as int),
{
    match utf8_text(slice_subrange(buf, start, end)) {
        Some(t) => Decoded::Message(Frame::Line(trim_text(t.as_str())), end),
        None => Decoded::Failed(
            "Failed to read MCP JSON line: stream did not contain valid UTF-8".to_owned(),
        ),
    }
}

/// Reads the next message from the bytes received so far; `eof` says
/// whether the stream has ended after them.
pub fn read_message(buf: &[u8], eof: bool) -> (r: Decoded)
    ensures
        r@ == decode(buf@, eof),
{
    let mut start: usize = 0;
    while start < buf.len() && (buf[start] == 0x20 || buf[start] == 0x09 || buf[start] == 0x0d
        || buf[start] == 0x0a)
        invariant
            start <= buf@.len(),
            skip_space(buf@, 0) == skip_space(buf@, start as int),
        decreases buf@.len() - start,
    {
        start = start + 1;
    }
    if start >= buf.len() {
        return if eof {
            Decoded::End
        } else {
            Decoded::NeedMore
        };
    }
    if buf[start] == 0x7b || buf[start] == 0x5b {
        return match find_newline(buf, start) {
            Some(nl) => {
                proof {
                    lemma_newline_from(buf@, start as int);
                }
                line_of(buf, start, nl + 1)
            },
            None => if eof {
                line_of(buf, start, buf.len())
            } else {
                Decoded::NeedMore
            },
        };
    }
    let mut pos = start;
    let mut length: Option<usize> = None;
    loop
        invariant
            start <= pos <= buf@.len(),
            decode(buf@, eof) == headers_message(buf@, pos as int, length_view(length), eof),
        decreases buf@.len() - pos,
    {
        proof {
            lemma_newline_from(buf@, pos as int);
        }
        let end: usize = match find_newline(buf, pos) {
            Some(nl) => {
                assert(nl < buf@.len());
                let len = buf.len();
                assert(nl < len);
                nl + 1
            },
            None => {
                if eof && pos < buf.len() {
                    buf.len()
                } else if eof {
                    return Decoded::End;
                } else {
                    return Decoded::NeedMore;
                }
            },
        };
        let line = match utf8_text(slice_subrange(buf, pos, end)) {
            Some(t) => t,
            None => {
                return Decoded::Failed(
                    "Failed to read MCP header line: stream did not contain valid UTF-8".to_owned(),
                );
            },
        };
        let text = strip_line_end_text(line.as_str());
        if text.as_str().unicode_len() == 0 {
            return body_of(buf, end, length, eof);
        }
        match header_update_text(text.as_str(), length) {
            Err(m) => {
                return Decoded::Failed(m);
            },
            Ok(next) => {
                length = next;
                pos = end;
            },
        }
    }
}

/// The bytes that carry a response: its JSON text, then a newline.
pub fn write_message(body: &[u8]) -> (r: Vec<u8>)
    ensures
        r@ == body@.push(0x0a),
{
    let mut out = slice_to_vec(body);
    out.push(0x0a);
    out
}


proof fn lemma_skip_space_extend(buf: Seq<u8>, ext: Seq<u8>, pos: int)
    requires
        0 <= pos <= buf.len(),
        skip_space(buf, pos) < buf.len(),
    ensures
        skip_space(buf + ext, pos) == skip_space(buf, pos),
    decreases buf.len() - pos,
{
    let b2 = buf + ext;
    assert(b2[pos] == buf[pos]);
    if is_frame_space(buf[pos]) {
        lemma_skip_space_extend(buf, ext, pos + 1);
    }
}

proof fn lemma_skip_space_range(buf: Seq<u8>, pos: int)
    requires
        0 <= pos <= buf.len(),
    ensures
        pos <= skip_space(buf, pos) <= buf.len(),
    decreases buf.len() - pos,
{
    if pos < buf.len() && is_frame_space(buf[pos]) {
        lemma_skip_space_range(buf, pos + 1);
    }
}

proof fn lemma_newline_extend(buf: Seq<u8>, ext: Seq<u8>, pos: int)
    requires
        0 <= pos,
        newline_from(buf, pos) is Some,
    ensures
        newline_from(buf + ext, pos) == newline_from(buf, pos),
    decreases buf.len() - pos,
{
    let b2 = buf + ext;
    assert(b2[pos] == buf[pos]);
    if buf[pos] != 0x0a {
        lemma_newline_extend(buf, ext, pos + 1);
    }
}

proof fn lemma_newline_at(buf: Seq<u8>, pos: int, k: int)
    requires
        0 <= pos <= k < buf.len(),
        buf[k] == 0x0a,
        forall|i: int| pos <= i < k ==> buf[i] != 0x0a,
    ensures
        newline_from(buf, pos) == Some(k),
    decreases k - pos,
{
    if pos < k {
        lemma_newline_at(buf, pos + 1, k);
    }
}

proof fn lemma_headers_extend(buf: Seq<u8>, ext: Seq<u8>, pos: int, length: Option<nat>, eof: bool)
    requires
        0 <= pos <= buf.len(),
        !(headers_message(buf, pos, length, false) is NeedMore),
    ensures
        headers_message(buf + ext, pos, length, eof) == headers_message(buf, pos, length, false),
    decreases buf.len() - pos,
{
    let b2 = buf + ext;
    lemma_newline_from(buf, pos);
    match newline_from(buf, pos) {
        Some(nl) => {
            lemma_newline_extend(buf, ext, pos);
            let end = nl + 1;
            assert(b2.subrange(pos, end) =~= buf.subrange(pos, end));
            let line = buf.subrange(pos, end);
            if valid_utf8(line) {
                let text = strip_line_end(decode_utf8(line));
                if text.len() == 0 {
                    match length {
                        Some(n) => {
                            if end + n <= buf.len() {
                                assert(b2.subrange(end, end + n) =~= buf.subrange(end, end + n));
                            }
                        },
                        None => {},
                    }
                } else {
                    match header_update(text, length) {
                        Err(m) => {},
                        Ok(next) => {
                            lemma_headers_extend(buf, ext, end, next, eof);
                        },
                    }
                }
            }
        },
        None => {},
    }
}

/// What the bytes received so far decide stays decided when more bytes
/// arrive: reading a stream piece by piece gives the messages that reading
/// it whole gives.
pub proof fn lemma_decode_prefix_stable(buf: Seq<u8>, more: Seq<u8>, eof: bool)
    requires
        !(decode(buf, false) is NeedMore),
    ensures
        decode(buf + more, eof) == decode(buf, false),
{
    let b2 = buf + more;
    lemma_skip_space_range(buf, 0);
    let start = skip_space(buf, 0);
    if start < buf.len() {
        lemma_skip_space_extend(buf, more, 0);
        assert(b2[start] == buf[start]);
        if buf[start] == 0x7b || buf[start] == 0x5b {
            lemma_newline_from(buf, start);
            lemma_newline_extend(buf, more, start);
            let nl = newline_from(buf, start)->0;
            assert(b2.subrange(start, nl + 1) =~= buf.subrange(start, nl + 1));
        } else {
            lemma_headers_extend(buf, more, start, None, eof);
        }
    }
}

proof fn lemma_headers_decide(buf: Seq<u8>, pos: int, length: Option<nat>)
    requires
        0 <= pos <= buf.len(),
    ensures
        !(headers_message(buf, pos, length, true) is NeedMore),
    decreases buf.len() - pos,
{
    lemma_newline_from(buf, pos);
    match line_end(buf, pos, true) {
        Some(end) => {
            let line = buf.subrange(pos, end);
            if valid_utf8(line) {
                let text = strip_line_end(decode_utf8(line));
                if text.len() != 0 {
                    match header_update(text, length) {
                        Err(m) => {},
                        Ok(next) => {
                            lemma_headers_decide(buf, end, next);
                        },
                    }
                }
            }
        },
        None => {},
    }
}

/// Once the stream has ended, the bytes left always decide: a message, the
/// end, or an error, never a wait for more.
pub proof fn lemma_decode_decides_at_end(buf: Seq<u8>)
    ensures
        !(decode(buf, true) is NeedMore),
{
    lemma_skip_space_range(buf, 0);
    let start = skip_space(buf, 0);
    if start < buf.len() && !(buf[start] == 0x7b || buf[start] == 0x5b) {
        lemma_headers_decide(buf, start, None);
    }
}

proof fn lemma_encode_scalar_bytes(c: char)
    ensures
        c as u32 <= 0x7f ==> encode_scalar(c as u32) == seq![c as u32 as u8],
        c as u32 > 0x7f ==> forall|i: int|
            0 <= i < encode_scalar(c as u32).len() ==> #[trigger] encode_scalar(c as u32)[i] >= 0x80,
{
    let s = c as u32;
    char_is_scalar(c);
    if s <= 0x7f {
        assert((s & 0x7f) as u8 == s as u8) by (bit_vector)
            requires
                s <= 0x7f,
        ;
    } else {
        let b1 = leading_byte_width_2(s);
        let b2 = leading_byte_width_3(s);
        let b3 = leading_byte_width_4(s);
        let b4 = last_continuation_byte(s);
        let b5 = second_last_continuation_byte(s);
        let b6 = third_last_continuation_byte(s);
        assert(b1 >= 0x80 && b2 >= 0x80 && b3 >= 0x80 && b4 >= 0x80 && b5 >= 0x80 && b6 >= 0x80)
            by (bit_vector)
            requires
                b1 == 0xC0 | ((s >> 6) & 0x1F) as u8,
                b2 == 0xE0 | ((s >> 12) & 0x0F) as u8,
                b3 == 0xF0 | ((s >> 18) & 0x7) as u8,
                b4 == 0x80 | (s & 0x3F) as u8,
                b5 == 0x80 | ((s >> 6) & 0x3F) as u8,
                b6 == 0x80 | ((s >> 12) & 0x3F) as u8,
        ;
    }
}

proof fn lemma_encode_concat(a: Seq<char>, b: Seq<char>)
    ensures
        encode_utf8(a + b) == encode_utf8(a) + encode_utf8(b),
    decreases a.len(),
{
    if a.len() == 0 {
        assert(a + b =~= b);
    } else {
        assert((a + b).drop_first() =~= a.drop_first() + b);
        lemma_encode_concat(a.drop_first(), b);
        assert(encode_utf8(a + b) =~= encode_utf8(a) + encode_utf8(b));
    }
}

proof fn lemma_encode_no_newline(t: Seq<char>)
    requires
        forall|i: int| 0 <= i < t.len() ==> t[i] != '\n',
    ensures
        forall|i: int| 0 <= i < encode_utf8(t).len() ==> encode_utf8(t)[i] != 0x0a,
    decreases t.len(),
{
    if t.len() > 0 {
        lemma_encode_scalar_bytes(t[0]);
        lemma_encode_no_newline(t.drop_first());
        let e = encode_scalar(t[0] as u32);
        let r = encode_utf8(t.drop_first());
        assert forall|i: int| 0 <= i < encode_utf8(t).len() implies encode_utf8(t)[i] != 0x0a by {
            if i < e.len() {
                assert(encode_utf8(t)[i] == e[i]);
                let u = t[0] as u32;
                if u <= 0x7f {
                    if u == 10 {
                        char_u32_cast(t[0], u);
                        char_u32_cast('\n', 10u32);
                        assert(t[0] == '\n');
                    }
                    assert(u as u8 != 10u8) by (bit_vector)
                        requires
                            u <= 0x7f,
                            u != 10,
                    ;
                }
            } else {
                assert(encode_utf8(t)[i] == r[i - e.len()]);
            }
        }
    }
}

/// A response written as one line of JSON text comes back as that text:
/// reading what `write_message` wrote, followed by anything, gives the
/// message and takes exactly its bytes.
pub proof fn lemma_line_roundtrip(text: Seq<char>, more: Seq<u8>, eof: bool)
    requires
        text.len() > 0,
        text[0] == '{' || text[0] == '[',
        !is_space(text.last()),
        forall|i: int| 0 <= i < text.len() ==> text[i] != '\n',
    ensures
        decode(encode_utf8(text).push(0x0a) + more, eof) == DecodedV::Message(
            FrameV::Line(text),
            encode_utf8(text).len() + 1int,
        ),
{
    let body = encode_utf8(text);
    let buf = body.push(0x0a) + more;
    lemma_encode_scalar_bytes(text[0]);
    assert(body =~= encode_scalar(text[0] as u32) + encode_utf8(text.drop_first()));
    assert(buf[0] == body[0]);
    assert(body[0] == text[0] as u32 as u8);
    assert(text[0] as u32 == 0x7b || text[0] as u32 == 0x5b);
    assert(skip_space(buf, 0) == 0);
    lemma_encode_no_newline(text);
    assert forall|i: int| 0 <= i < body.len() implies buf[i] != 0x0a by {
        assert(buf[i] == body[i]);
    }
    lemma_newline_at(buf, 0, body.len() as int);

    let line_text = text + seq!['\n'];
    lemma_encode_concat(text, seq!['\n']);
    lemma_encode_scalar_bytes('\n');
    assert(encode_utf8(seq!['\n']) =~= encode_scalar('\n' as u32) + encode_utf8(seq!['\n'].drop_first()));
    assert(encode_utf8(seq!['\n']) =~= seq![0x0au8]);
    assert(buf.subrange(0, body.len() + 1int) =~= encode_utf8(line_text));
    encode_utf8_valid_utf8(line_text);
    encode_utf8_decode_utf8(line_text);
    // trimming the decoded line gives back the text
    assert(line_text[0] == text[0]);
    assert(!is_space(line_text[0]));
    assert(leading_space(line_text) == 0);
    assert(line_text.skip(0) =~= line_text);
    assert(line_text.drop_last() =~= text);
    assert(trailing_space(text) == 0);
    assert(trailing_space(line_text) == 1);
    assert(line_text.take(line_text.len() - 1) =~= text);
}

proof fn lemma_ascii_encode(t: Seq<char>)
    requires
        forall|i: int| 0 <= i < t.len() ==> (#[trigger] t[i]) as u32 <= 0x7f,
    ensures
        encode_utf8(t) == Seq::new(t.len(), |i: int| t[i] as u32 as u8),
    decreases t.len(),
{
    if t.len() > 0 {
        lemma_encode_scalar_bytes(t[0]);
        lemma_ascii_encode(t.drop_first());
        assert(encode_utf8(t) =~= Seq::new(t.len(), |i: int| t[i] as u32 as u8));
    }
}

proof fn lemma_colon_at(s: Seq<char>, i: int, k: int)
    requires
        0 <= i <= k < s.len(),
        s[k] == ':',
        forall|j: int| i <= j < k ==> s[j] != ':',
    ensures
        colon_from(s, i) == Some(k),
    decreases k - i,
{
    if i < k {
        lemma_colon_at(s, i + 1, k);
    }
}

/// The header that announces a body of `n` bytes.
pub open spec fn length_header(n: nat) -> Seq<char> {
    "Content-Length: "@ + decimal(n) + "\r\n\r\n"@
}

/// A body sent with a `Content-Length` header comes back as that body: reading
/// the header and the body, followed by anything, gives the body and takes
/// exactly the header and the body.
pub proof fn lemma_length_roundtrip(body: Seq<u8>, more: Seq<u8>, eof: bool)
    requires
        body.len() <= usize::MAX,
    ensures
        decode(encode_utf8(length_header(body.len())) + body + more, eof) == DecodedV::Message(
            FrameV::Body(body),
            length_header(body.len()).len() + body.len() as int,
        ),
{
    let n = body.len();
    let d = decimal(n);
    let k = d.len() as int;
    lemma_decimal_shape(n);
    lemma_parse_decimal(n);
    reveal_strlit("Content-Length: ");
    reveal_strlit("\r\n\r\n");
    reveal_strlit("content-length");
    let prefix = "Content-Length: "@;
    let h = length_header(n);
    assert(prefix.len() == 16);
    assert(h.len() == 16 + k + 4);
    assert forall|i: int| 0 <= i < h.len() implies (#[trigger] h[i]) as u32 <= 0x7f by {
        if i < 16 {
            assert(h[i] == prefix[i]);
        } else if i < 16 + k {
            assert(h[i] == d[i - 16]);
        } else {
            assert(h[i] == "\r\n\r\n"@[i - 16 - k]);
        }
    }
    lemma_ascii_encode(h);
    let hb = encode_utf8(h);
    let buf = hb + body + more;
    assert forall|i: int| 0 <= i < hb.len() implies buf[i] == hb[i] && #[trigger] hb[i] == h[i] as u32 as u8 by {}
    // the space before the message
    assert(h[0] == 'C');
    assert(buf[0] == 67u8);
    assert(skip_space(buf, 0) == 0);
    // the first line
    let e1 = 16 + k + 2;
    assert(h[e1 - 1] == '\n');
    assert(h[e1 - 2] == '\r');
    assert forall|i: int| 0 <= i < e1 - 1 implies buf[i] != 0x0a by {
        assert(buf[i] == h[i] as u32 as u8);
        if i < 16 {
            assert(h[i] == prefix[i]);
        } else if i < 16 + k {
            assert(h[i] == d[i - 16]);
        } else {
            assert(h[i] == '\r');
        }
    }
    lemma_newline_at(buf, 0, e1 - 1);
    let l1 = h.take(e1);
    let rest1 = h.skip(e1);
    assert(h =~= l1 + rest1);
    lemma_encode_concat(l1, rest1);
    assert(buf.subrange(0, e1) =~= encode_utf8(l1)) by {
        assert(encode_utf8(l1).len() == e1) by {
            lemma_ascii_encode(l1);
        }
    }
    encode_utf8_valid_utf8(l1);
    encode_utf8_decode_utf8(l1);
    let t = prefix + d;
    assert(l1.drop_last().drop_last() =~= t);
    assert(strip_line_end(l1.drop_last().drop_last()) == t) by {
        assert(t.last() == d.last());
    }
    assert(l1.last() == '\n');
    assert(l1.drop_last().last() == '\r');
    assert(strip_line_end(l1.drop_last()) == strip_line_end(l1.drop_last().drop_last()));
    assert(strip_line_end(l1) == strip_line_end(l1.drop_last()));
    assert(strip_line_end(l1) == t);
    // the header's name and value
    assert forall|j: int| 0 <= j < 14 implies t[j] != ':' by {
        assert(t[j] == prefix[j]);
    }
    assert(t[14] == ':');
    lemma_colon_at(t, 0, 14);
    assert(eq_ignore_ascii_case(t.take(14), "content-length"@)) by {
        assert forall|j: int| 0 <= j < 14 implies ascii_lower(#[trigger] t.take(14)[j]) == ascii_lower(
            "content-length"@[j],
        ) by {
            assert(t.take(14)[j] == prefix[j]);
        }
    }
    let v = t.skip(15);
    assert(v =~= seq![' '] + d);
    lemma_leading_space_step(v, 1);
    assert(v.skip(1) =~= d);
    assert(trailing_space(d) == 0);
    assert(trim(v) =~= d);
    assert(header_update(t, None) == Ok::<Option<nat>, Seq<char>>(Some(n)));
    // the empty line
    let e2 = e1 + 2;
    assert(buf[e1] == 0x0d);
    assert(buf[e1 + 1] == 0x0a);
    lemma_newline_at(buf, e1, e1 + 1);
    let l2 = h.skip(e1);
    assert(l2 =~= seq!['\r', '\n']);
    lemma_ascii_encode(l2);
    assert(buf.subrange(e1, e2) =~= encode_utf8(l2));
    encode_utf8_valid_utf8(l2);
    encode_utf8_decode_utf8(l2);
    assert(strip_line_end(l2.drop_last().drop_last()) == Seq::<char>::empty());
    assert(l2.last() == '\n');
    assert(l2.drop_last().last() == '\r');
    assert(l2.drop_last().drop_last() =~= Seq::<char>::empty());
    assert(strip_line_end(l2.drop_last()) == strip_line_end(l2.drop_last().drop_last()));
    assert(strip_line_end(l2) == strip_line_end(l2.drop_last()));
    assert(strip_line_end(l2) == Seq::<char>::empty());
    // the body
    assert(e2 == hb.len());
    assert(buf.subrange(e2, e2 + n) =~= body);
    assert(headers_message(buf, e1, Some(n), eof) == body_message(buf, e2, Some(n), eof));
    assert(headers_message(buf, 0, None, eof) == headers_message(buf, e1, Some(n), eof));
}

proof fn lemma_headers_consume(buf: Seq<u8>, pos: int, length: Option<nat>, eof: bool)
    requires
        0 <= pos <= buf.len(),
    ensures
        headers_message(buf, pos, length, eof) matches DecodedV::Message(_, n) ==> pos < n
            <= buf.len(),
    decreases buf.len() - pos,
{
    lemma_newline_from(buf, pos);
    match line_end(buf, pos, eof) {
        Some(end) => {
            let line = buf.subrange(pos, end);
            if valid_utf8(line) {
                let text = strip_line_end(decode_utf8(line));
                if text.len() != 0 {
                    match header_update(text, length) {
                        Err(m) => {},
                        Ok(next) => {
                            lemma_headers_consume(buf, end, next, eof);
                        },
                    }
                }
            }
        },
        None => {},
    }
}

/// A message always takes at least one byte, and never more than were
/// received: the reader makes progress and stays within its buffer.
pub proof fn lemma_decode_consumes(buf: Seq<u8>, eof: bool)
    ensures
        decode(buf, eof) matches DecodedV::Message(_, n) ==> 0 < n <= buf.len(),
{
    lemma_skip_space_range(buf, 0);
    let start = skip_space(buf, 0);
    if start < buf.len() {
        if buf[start] == 0x7b || buf[start] == 0x5b {
            lemma_newline_from(buf, start);
        } else {
            lemma_headers_consume(buf, start, None, eof);
        }
    }
}

} // verus!
