//! The JSON-RPC transport: `Content-Length` framing over a byte stream, and the
//! request, notification and response messages.

use vstd::prelude::*;
use vstd::string::*;

use crate::json;
use crate::json::Json;
use crate::json::JsonV;
use crate::numerals;
use crate::text;

pub mod error_codes;

verus! {

/// Why a stream holds no well-formed frame.
#[derive(Clone, Copy, Debug, PartialEq, Eq, Structural)]
pub enum FrameError {
    /// The stream ended in the middle of the header.
    HeaderCut,
    /// A header line is not UTF-8.
    HeaderNotText,
    /// The `Content-Length` header holds no length.
    InvalidLength,
    /// The header has no `Content-Length`.
    MissingLength,
    /// The stream ended in the middle of the body.
    BodyCut,
}

impl FrameError {
    /// The message of the error.
    pub open spec fn message_text(self) -> Seq<char> {
        match self {
            FrameError::HeaderCut => "stream ended in the middle of a message header"@,
            FrameError::HeaderNotText => "stream did not contain valid UTF-8"@,
            FrameError::InvalidLength => "invalid Content-Length header"@,
            FrameError::MissingLength => "missing Content-Length header"@,
            FrameError::BodyCut => "failed to fill whole buffer"@,
        }
    }

    /// The message of the error.
    pub fn message(self) -> (message: &'static str)
        ensures
            message@ == self.message_text(),
    {
        match self {
            FrameError::HeaderCut => "stream ended in the middle of a message header",
            FrameError::HeaderNotText => "stream did not contain valid UTF-8",
            FrameError::InvalidLength => "invalid Content-Length header",
            FrameError::MissingLength => "missing Content-Length header",
            FrameError::BodyCut => "failed to fill whole buffer",
        }
    }
}

/// A header line without the line break characters at its end.
pub open spec fn without_break(line: Seq<char>) -> Seq<char>
    decreases line.len(),
{
    if line.len() > 0 && (line.last() == '\r' || line.last() == '\n') {
        without_break(line.drop_last())
    } else {
        line
    }
}

/// The index of the first occurrence of a character, or the length of the text.
pub open spec fn first_of(s: Seq<char>, c: char) -> int
    decreases s.len(),
{
    if s.len() == 0 || s[0] == c {
        0
    } else {
        1 + first_of(s.drop_first(), c)
    }
}

/// The code of a character, for an ASCII letter that of its lower case.
pub open spec fn lower(c: char) -> int {
    if 'A' <= c <= 'Z' {
        c as int + 32
    } else {
        c as int
    }
}

/// Equal but for the case of ASCII letters.
pub open spec fn same_ignoring_case(a: Seq<char>, b: Seq<char>) -> bool {
    a.len() == b.len() && forall|i: int| 0 <= i < a.len() ==> lower(#[trigger] a[i]) == lower(b[i])
}

/// The value of a `Name: value` line whose name is the given one.
pub open spec fn value_of(line: Seq<char>, name: Seq<char>) -> Option<Seq<char>> {
    let colon = first_of(line, ':');
    if colon < line.len() && same_ignoring_case(text::trimmed(line.take(colon)), name) {
        Some(line.skip(colon + 1))
    } else {
        None
    }
}

/// The length that a header value denotes: digits, behind an optional plus sign.
pub open spec fn length_of(value: Seq<char>) -> Option<nat> {
    let t = text::trimmed(value);
    let digits = if t.len() > 0 && t[0] == '+' {
        t.drop_first()
    } else {
        t
    };
    if numerals::is_numeral(digits) && numerals::value(digits) <= usize::MAX {
        Some(numerals::value(digits))
    } else {
        None
    }
}

/// What the lines of a header have told so far.
#[derive(Clone, Copy, Debug, PartialEq, Eq, Structural)]
pub struct Header {
    /// The length of the body, once a line named it.
    pub length: Option<usize>,
    /// Whether any line was read.
    pub seen: bool,
}

/// What one more line makes of a header.
#[derive(Clone, Copy, Debug, PartialEq, Eq, Structural)]
pub enum HeaderStep {
    /// The header goes on.
    More(Header),
    /// The header is complete; the body has this many bytes.
    Body(usize),
    /// The header is malformed.
    Malformed(FrameError),
}

/// The header before its first line.
pub open spec fn no_header() -> Header {
    Header { length: None, seen: false }
}

/// One line of a header, read behind `header`.
pub open spec fn header_step(header: Header, line: Seq<char>) -> HeaderStep {
    let content = without_break(line);
    if content.len() == 0 {
        match header.length {
            Some(length) => HeaderStep::Body(length),
            None => HeaderStep::Malformed(FrameError::MissingLength),
        }
    } else {
        match value_of(content, "Content-Length"@) {
            None => HeaderStep::More(Header { length: header.length, seen: true }),
            Some(value) => match length_of(value) {
                None => HeaderStep::Malformed(FrameError::InvalidLength),
                Some(n) => HeaderStep::More(Header { length: Some(n as usize), seen: true }),
            },
        }
    }
}

/// The number of bytes of the first line, its line break included.
pub open spec fn line_bytes(bytes: Seq<u8>) -> int
    decreases bytes.len(),
{
    if bytes.len() == 0 {
        0
    } else if bytes[0] == 10u8 {
        1
    } else {
        1 + line_bytes(bytes.drop_first())
    }
}

/// What a stream begins with.
pub enum FrameV {
    /// The stream is at its end.
    End,
    /// A frame with this body, which takes this many bytes of the stream.
    Body(Seq<u8>, nat),
    /// No well-formed frame.
    Malformed(FrameError),
}

/// What a stream begins with, behind the given header lines, which took `used`
/// bytes.
pub open spec fn frame_behind(bytes: Seq<u8>, header: Header, used: nat) -> FrameV
    decreases bytes.len(),
{
    let n = line_bytes(bytes);
    if bytes.len() == 0 {
        if header.seen {
            FrameV::Malformed(FrameError::HeaderCut)
        } else {
            FrameV::End
        }
    } else if n <= 0 || n > bytes.len() || !vstd::utf8::valid_utf8(bytes.take(n)) {
        FrameV::Malformed(FrameError::HeaderNotText)
    } else {
        match header_step(header, vstd::utf8::decode_utf8(bytes.take(n))) {
            HeaderStep::Malformed(error) => FrameV::Malformed(error),
            HeaderStep::More(more) => frame_behind(bytes.skip(n), more, (used + n) as nat),
            HeaderStep::Body(length) => if n + length <= bytes.len() {
                FrameV::Body(bytes.subrange(n, n + length), (used + n + length) as nat)
            } else {
                FrameV::Malformed(FrameError::BodyCut)
            },
        }
    }
}

/// What a stream begins with.
pub open spec fn frame_of(bytes: Seq<u8>) -> FrameV {
    frame_behind(bytes, no_header(), 0)
}

/// What is to be read of a stream before its first frame is known.
#[derive(Clone, Copy, Debug, PartialEq, Eq, Structural)]
pub enum FrameNeed {
    /// Up to the end of a header line.
    Line,
    /// This many bytes of the body.
    Bytes(usize),
    /// Nothing: what comes next does not matter.
    Nothing,
}

/// What is to be read behind `bytes`, which stand behind the given header lines.
pub open spec fn need_behind(bytes: Seq<u8>, header: Header) -> FrameNeed
    decreases bytes.len(),
{
    let n = line_bytes(bytes);
    if n <= 0 || n > bytes.len() || bytes[n - 1] != 10u8 {
        FrameNeed::Line
    } else if !vstd::utf8::valid_utf8(bytes.take(n)) {
        FrameNeed::Nothing
    } else {
        match header_step(header, vstd::utf8::decode_utf8(bytes.take(n))) {
            HeaderStep::Malformed(_) => FrameNeed::Nothing,
            HeaderStep::More(more) => need_behind(bytes.skip(n), more),
            HeaderStep::Body(length) => if n + length <= bytes.len() {
                FrameNeed::Nothing
            } else {
                FrameNeed::Bytes((n + length - bytes.len()) as usize)
            },
        }
    }
}

/// What is to be read behind the bytes that were read so far.
pub open spec fn need_of(bytes: Seq<u8>) -> FrameNeed {
    need_behind(bytes, no_header())
}

/// The frame of a body.
pub open spec fn framed(body: Seq<u8>) -> Seq<u8> {
    vstd::utf8::encode_utf8(
        "Content-Length: "@ + numerals::decimal(body.len()) + "\r\n\r\n"@,
    ) + body
}

/// The first line is not empty unless the stream is, and lies within it.
proof fn lemma_line_bytes(bytes: Seq<u8>)
    ensures
        0 <= line_bytes(bytes) <= bytes.len(),
        bytes.len() > 0 ==> line_bytes(bytes) > 0,
    decreases bytes.len(),
{
    if bytes.len() > 0 && bytes[0] != 10u8 {
        lemma_line_bytes(bytes.drop_first());
    }
}

fn trim_break(line: &str) -> (content: String)
    ensures
        content@ == without_break(line@),
{
    let chars = text::chars_of(line);
    let mut n: usize = chars.len();
    assert(line@.take(n as int) =~= line@);
    while n > 0 && (chars[n - 1] == '\r' || chars[n - 1] == '\n')
        invariant
            n <= chars.len(),
            chars@ == line@,
            without_break(line@) == without_break(line@.take(n as int)),
        decreases n,
    {
        assert(line@.take(n as int).drop_last() =~= line@.take(n - 1));
        n -= 1;
    }
    let kept = vstd::slice::slice_subrange(chars.as_slice(), 0, n);
    assert(kept@ =~= line@.take(n as int));
    text::string_of(kept)
}

fn lower_of(c: char) -> (code: u32)
    ensures
        code == lower(c),
{
    if 'A' <= c && c <= 'Z' {
        c as u32 + 32
    } else {
        c as u32
    }
}

pub fn equal_ignoring_case(a: &str, b: &str) -> (equal: bool)
    ensures
        equal == same_ignoring_case(a@, b@),
{
    let x = text::chars_of(a);
    let y = text::chars_of(b);
    if x.len() != y.len() {
        return false;
    }
    let mut i: usize = 0;
    while i < x.len()
        invariant
            x@ == a@,
            y@ == b@,
            x.len() == y.len(),
            i <= x.len(),
            forall|j: int| 0 <= j < i ==> lower(#[trigger] x@[j]) == lower(y@[j]),
        decreases x.len() - i,
    {
        if lower_of(x[i]) != lower_of(y[i]) {
            return false;
        }
        i += 1;
    }
    true
}

/// The value of a `Name: value` line, where its name, up to the case of ASCII
/// letters and the white space around it, is the given one.
pub fn header_value(line: &str, name: &str) -> (value: Option<String>)
    ensures
        match value {
            Some(v) => value_of(line@, name@) == Some(v@),
            None => value_of(line@, name@) is None,
        },
{
    let chars = text::chars_of(line);
    let mut i: usize = 0;
    assert(line@.skip(0) =~= line@);
    while i < chars.len() && chars[i] != ':'
        invariant
            i <= chars.len(),
            chars@ == line@,
            first_of(line@, ':') == i + first_of(line@.skip(i as int), ':'),
        decreases chars.len() - i,
    {
        assert(line@.skip(i as int).drop_first() =~= line@.skip(i + 1));
        i += 1;
    }
    if i >= chars.len() {
        return None;
    }
    let key = vstd::slice::slice_subrange(chars.as_slice(), 0, i);
    let rest = vstd::slice::slice_subrange(chars.as_slice(), i + 1, chars.len());
    assert(key@ =~= line@.take(i as int));
    assert(rest@ =~= line@.skip(i + 1));
    if equal_ignoring_case(text::trim(text::string_of(key).as_str()).as_str(), name) {
        Some(text::string_of(rest))
    } else {
        None
    }
}

fn parse_length(value: &str) -> (length: Option<usize>)
    ensures
        match length {
            Some(n) => length_of(value@) == Some(n as nat),
            None => length_of(value@) is None,
        },
{
    let chars = text::chars_of(text::trim(value).as_str());
    let from: usize = if chars.len() > 0 && chars[0] == '+' {
        1
    } else {
        0
    };
    let digits = vstd::slice::slice_subrange(chars.as_slice(), from, chars.len());
    proof {
        let t = text::trimmed(value@);
        if from == 1 {
            assert(digits@ =~= t.drop_first());
        } else {
            assert(digits@ =~= t);
        }
    }
    match numerals::parse_digits(digits) {
        None => None,
        Some(n) => if n <= usize::MAX as u64 {
            Some(n as usize)
        } else {
            None
        },
    }
}

impl Header {
    /// The header before its first line.
    pub fn new() -> (header: Header)
        ensures
            header == no_header(),
    {
        Header { length: None, seen: false }
    }

    /// Reads one more line of the header.
    pub fn step(self, line: &str) -> (step: HeaderStep)
        ensures
            step == header_step(self, line@),
    {
        let content = trim_break(line);
        if text::chars_of(content.as_str()).len() == 0 {
            return match self.length {
                Some(length) => HeaderStep::Body(length),
                None => HeaderStep::Malformed(FrameError::MissingLength),
            };
        }
        match header_value(content.as_str(), "Content-Length") {
            None => HeaderStep::More(Header { length: self.length, seen: true }),
            Some(value) => match parse_length(value.as_str()) {
                None => HeaderStep::Malformed(FrameError::InvalidLength),
                Some(n) => HeaderStep::More(Header { length: Some(n), seen: true }),
            },
        }
    }
}

fn end_of_line(stream: &[u8], at: usize) -> (end: usize)
    requires
        at < stream@.len(),
    ensures
        at < end <= stream@.len(),
        end - at == line_bytes(stream@.skip(at as int)),
{
    let ghost rest = stream@.skip(at as int);
    let mut end: usize = at;
    proof {
        lemma_line_bytes(rest);
    }
    while end < stream.len() && stream[end] != 10u8
        invariant
            at <= end <= stream.len(),
            rest == stream@.skip(at as int),
            line_bytes(rest) == (end - at) + line_bytes(stream@.skip(end as int)),
        decreases stream.len() - end,
    {
        assert(stream@.skip(end as int).drop_first() =~= stream@.skip(end + 1));
        end += 1;
    }
    if end < stream.len() {
        end += 1;
    }
    end
}

/// Tells what is to be read behind the bytes that were read so far. Once it is nothing,
/// `read_frame` gives the first frame of the stream, whatever follows.
pub fn frame_need(stream: &[u8]) -> (need: FrameNeed)
    ensures
        need == need_of(stream@),
{
    let mut header = Header::new();
    let mut at: usize = 0;
    assert(stream@.skip(0) =~= stream@);
    while at < stream.len()
        invariant
            at <= stream.len(),
            need_of(stream@) == need_behind(stream@.skip(at as int), header),
        decreases stream.len() - at,
    {
        let ghost rest = stream@.skip(at as int);
        let end = end_of_line(stream, at);
        if stream[end - 1] != 10u8 {
            return FrameNeed::Line;
        }
        let line = vstd::slice::slice_subrange(stream, at, end);
        assert(line@ =~= rest.take(end - at));
        match text::text_of(line) {
            None => {
                return FrameNeed::Nothing;
            },
            Some(content) => {
                proof {
                    vstd::utf8::encode_utf8_decode_utf8(content@);
                }
                match header.step(content) {
                    HeaderStep::Malformed(_) => {
                        return FrameNeed::Nothing;
                    },
                    HeaderStep::Body(length) => {
                        let here: usize = stream.len() - end;
                        return if length <= here {
                            FrameNeed::Nothing
                        } else {
                            FrameNeed::Bytes(length - here)
                        };
                    },
                    HeaderStep::More(more) => {
                        assert(rest.skip(end - at) =~= stream@.skip(end as int));
                        header = more;
                        at = end;
                    },
                }
            },
        }
    }
    FrameNeed::Line
}

proof fn lemma_line_kept(bytes: Seq<u8>, more: Seq<u8>)
    requires
        0 < line_bytes(bytes) <= bytes.len(),
        bytes[line_bytes(bytes) - 1] == 10u8,
    ensures
        line_bytes(bytes + more) == line_bytes(bytes),
    decreases bytes.len(),
{
    let n = line_bytes(bytes);
    assert((bytes + more)[0] == bytes[0]);
    if bytes[0] != 10u8 {
        let rest = bytes.drop_first();
        assert((bytes + more).drop_first() =~= rest + more);
        assert(bytes[n - 1] == rest[n - 2]);
        lemma_line_kept(rest, more);
    }
}

proof fn lemma_settled_behind(bytes: Seq<u8>, more: Seq<u8>, header: Header, used: nat)
    ensures
        need_behind(bytes, header) is Nothing ==> frame_behind(bytes + more, header, used)
            == frame_behind(bytes, header, used),
        need_behind(bytes, header) matches FrameNeed::Bytes(missing) ==> {
            &&& frame_behind(bytes, header, used) == FrameV::Malformed(FrameError::BodyCut)
            &&& more.len() == missing ==> need_behind(bytes + more, header) is Nothing
        },
    decreases bytes.len(),
{
    let n = line_bytes(bytes);
    let all = bytes + more;
    lemma_line_bytes(bytes);
    if 0 < n <= bytes.len() && bytes[n - 1] == 10u8 {
        lemma_line_kept(bytes, more);
        assert(all.take(n) =~= bytes.take(n));
        assert(all[n - 1] == bytes[n - 1]);
        if vstd::utf8::valid_utf8(bytes.take(n)) {
            match header_step(header, vstd::utf8::decode_utf8(bytes.take(n))) {
                HeaderStep::Malformed(_) => {},
                HeaderStep::More(next) => {
                    assert(all.skip(n) =~= bytes.skip(n) + more);
                    lemma_settled_behind(bytes.skip(n), more, next, (used + n) as nat);
                },
                HeaderStep::Body(length) => {
                    if n + length <= bytes.len() {
                        assert(all.subrange(n, n + length) =~= bytes.subrange(n, n + length));
                    }
                },
            }
        }
    }
}

/// Once nothing more is to be read, what follows does not change the first frame.
pub proof fn law_read_on_demand(bytes: Seq<u8>, more: Seq<u8>)
    requires
        need_of(bytes) is Nothing,
    ensures
        frame_of(bytes + more) == frame_of(bytes),
{
    lemma_settled_behind(bytes, more, no_header(), 0);
}

/// The bytes that are missing of a body are as many as are asked for: with fewer the frame
/// is cut, with these nothing more is to be read.
pub proof fn law_body_on_demand(bytes: Seq<u8>, more: Seq<u8>)
    requires
        need_of(bytes) == FrameNeed::Bytes(more.len() as usize),
        more.len() <= usize::MAX,
    ensures
        frame_of(bytes) == FrameV::Malformed(FrameError::BodyCut),
        need_of(bytes + more) is Nothing,
{
    lemma_settled_behind(bytes, more, no_header(), 0);
}

/// Reads the first frame of a stream: its body, and the number of bytes that it
/// takes. At the end of the stream there is none.
pub fn read_frame(stream: &[u8]) -> (frame: Result<Option<(Vec<u8>, usize)>, FrameError>)
    ensures
        match frame {
            Ok(None) => frame_of(stream@) is End,
            Ok(Some((body, used))) => frame_of(stream@) == FrameV::Body(body@, used as nat),
            Err(error) => frame_of(stream@) == FrameV::Malformed(error),
        },
{
    let mut header = Header::new();
    let mut at: usize = 0;
    assert(stream@.skip(0) =~= stream@);
    while at < stream.len()
        invariant
            at <= stream.len(),
            frame_of(stream@) == frame_behind(stream@.skip(at as int), header, at as nat),
        decreases stream.len() - at,
    {
        let ghost rest = stream@.skip(at as int);
        let end = end_of_line(stream, at);
        let line = vstd::slice::slice_subrange(stream, at, end);
        assert(line@ =~= rest.take(end - at));
        match text::text_of(line) {
            None => {
                return Err(FrameError::HeaderNotText);
            },
            Some(content) => {
                proof {
                    vstd::utf8::encode_utf8_decode_utf8(content@);
                }
                match header.step(content) {
                    HeaderStep::Malformed(error) => {
                        return Err(error);
                    },
                    HeaderStep::Body(length) => {
                        if length <= stream.len() - end {
                            let body = vstd::slice::slice_subrange(stream, end, end + length);
                            assert(body@ =~= rest.subrange(end - at, end - at + length));
                            return Ok(Some((vstd::slice::slice_to_vec(body), end + length)));
                        }
                        return Err(FrameError::BodyCut);
                    },
                    HeaderStep::More(more) => {
                        assert(rest.skip(end - at) =~= stream@.skip(end as int));
                        header = more;
                        at = end;
                    },
                }
            },
        }
    }
    if header.seen {
        Err(FrameError::HeaderCut)
    } else {
        Ok(None)
    }
}

/// The first line ends behind the first line break byte.
proof fn lemma_line_bytes_at(bytes: Seq<u8>, k: int)
    requires
        0 <= k < bytes.len(),
        bytes[k] == 10u8,
        forall|j: int| 0 <= j < k ==> bytes[j] != 10u8,
    ensures
        line_bytes(bytes) == k + 1,
    decreases k,
{
    if k > 0 {
        assert(bytes.drop_first()[k - 1] == 10u8);
        lemma_line_bytes_at(bytes.drop_first(), k - 1);
    }
}

/// What an ASCII line that ends in its only line break, at the head of a stream,
/// does to a header.
proof fn lemma_ascii_line(line: Seq<char>, rest: Seq<u8>, header: Header, used: nat)
    requires
        line.len() > 0,
        vstd::utf8::is_ascii_chars(line),
        line.last() == '\n',
        forall|j: int| 0 <= j < line.len() - 1 ==> line[j] != '\n',
    ensures
        frame_behind(vstd::utf8::encode_utf8(line) + rest, header, used) == (match header_step(
            header,
            line,
        ) {
            HeaderStep::Malformed(error) => FrameV::Malformed(error),
            HeaderStep::More(more) => frame_behind(rest, more, (used + line.len()) as nat),
            HeaderStep::Body(length) => if length <= rest.len() {
                FrameV::Body(rest.take(length as int), (used + line.len() + length) as nat)
            } else {
                FrameV::Malformed(FrameError::BodyCut)
            },
        }),
{
    let head = vstd::utf8::encode_utf8(line);
    let bytes = head + rest;
    let n = line.len() as int;
    vstd::utf8::is_ascii_chars_encode_utf8(line);
    vstd::utf8::encode_utf8_valid_utf8(line);
    vstd::utf8::encode_utf8_decode_utf8(line);
    assert(line[n - 1] as u8 == head[n - 1]);
    assert forall|j: int| 0 <= j < n - 1 implies bytes[j] != 10u8 by {
        assert(line[j] as u8 == head[j]);
        assert('\0' <= line[j] <= '\u{7f}');
    }
    lemma_line_bytes_at(bytes, n - 1);
    assert(bytes.take(n) =~= head);
    assert(bytes.skip(n) =~= rest);
    match header_step(header, line) {
        HeaderStep::Body(length) => {
            if length <= rest.len() {
                assert(bytes.subrange(n, n + length) =~= rest.take(length as int));
            }
        },
        _ => {},
    }
}

/// A text with no white space at its ends is trimmed already.
proof fn lemma_trimmed(s: Seq<char>)
    requires
        s.len() > 0,
        !text::whitespace(s[0]),
        !text::whitespace(s.last()),
    ensures
        text::trimmed(s) == s,
{
}

/// What the length line of a frame tells.
proof fn lemma_length_line(n: nat)
    requires
        n <= usize::MAX,
    ensures
        ({
            let line = "Content-Length: "@ + numerals::decimal(n) + "\r\n"@;
            &&& vstd::utf8::is_ascii_chars(line)
            &&& line.last() == '\n'
            &&& forall|j: int| 0 <= j < line.len() - 1 ==> line[j] != '\n'
            &&& header_step(no_header(), line) == HeaderStep::More(
                Header { length: Some(n as usize), seen: true },
            )
        }),
{
    reveal_strlit("Content-Length: ");
    reveal_strlit("Content-Length");
    reveal_strlit("\r\n");
    let digits = numerals::decimal(n);
    let content = "Content-Length: "@ + digits;
    let line = content + "\r\n"@;
    numerals::lemma_decimal_value(n);
    assert forall|j: int| 0 <= j < digits.len() implies numerals::is_digit(digits[j]) by {}
    assert(line.drop_last().drop_last() =~= content);
    assert(content.last() == digits.last());
    assert(numerals::is_digit(digits[digits.len() - 1]));
    reveal_with_fuel(without_break, 3);
    assert(without_break(line) == content);
    let name = "Content-Length"@;
    assert(content.take(14) =~= name);
    lemma_first_of(content, ':', 14);
    lemma_trimmed(name);
    let value = content.skip(15);
    assert(value.drop_first() =~= digits);
    assert(value[0] == ' ');
    assert(numerals::is_digit(digits[0]));
    reveal_with_fuel(text::trimmed_start, 2);
    assert(text::trimmed(value) == digits);
}

/// The first occurrence of a character.
proof fn lemma_first_of(s: Seq<char>, c: char, k: int)
    requires
        0 <= k < s.len(),
        s[k] == c,
        forall|j: int| 0 <= j < k ==> s[j] != c,
    ensures
        first_of(s, c) == k,
    decreases k,
{
    if k > 0 {
        lemma_first_of(s.drop_first(), c, k - 1);
    }
}

/// Reading a stream that begins with the frame of a body gives the body back and
/// takes exactly the frame, whatever follows.
pub proof fn law_frame_round_trip(body: Seq<u8>, rest: Seq<u8>)
    requires
        body.len() <= usize::MAX,
    ensures
        frame_of(framed(body) + rest) == FrameV::Body(body, framed(body).len()),
{
    let n = body.len();
    let line = "Content-Length: "@ + numerals::decimal(n) + "\r\n"@;
    let blank = "\r\n"@;
    reveal_strlit("\r\n");
    reveal_strlit("\r\n\r\n");
    lemma_length_line(n);
    assert("Content-Length: "@ + numerals::decimal(n) + "\r\n\r\n"@ =~= line + blank);
    lemma_encode_add(line, blank);
    let tail = vstd::utf8::encode_utf8(blank) + (body + rest);
    assert(framed(body) + rest =~= vstd::utf8::encode_utf8(line) + tail);
    let header = Header { length: Some(n as usize), seen: true };
    lemma_ascii_line(line, tail, no_header(), 0);
    lemma_ascii_line(blank, body + rest, header, line.len());
    reveal_with_fuel(without_break, 3);
    assert(blank.drop_last().drop_last() =~= Seq::<char>::empty());
    assert(header_step(header, blank) == HeaderStep::Body(n as usize));
    assert((body + rest).take(n as int) =~= body);
    vstd::utf8::is_ascii_chars_encode_utf8(line);
    vstd::utf8::is_ascii_chars_encode_utf8(blank);
}

/// The encoding of two texts, one behind the other.
proof fn lemma_encode_add(a: Seq<char>, b: Seq<char>)
    ensures
        vstd::utf8::encode_utf8(a + b) == vstd::utf8::encode_utf8(a) + vstd::utf8::encode_utf8(b),
    decreases a.len(),
{
    if a.len() == 0 {
        assert(a + b =~= b);
        assert(vstd::utf8::encode_utf8(a) + vstd::utf8::encode_utf8(b) =~= vstd::utf8::encode_utf8(
            b,
        ));
    } else {
        assert((a + b).drop_first() =~= a.drop_first() + b);
        lemma_encode_add(a.drop_first(), b);
        assert(vstd::utf8::encode_utf8(a + b) =~= vstd::utf8::encode_utf8(a)
            + vstd::utf8::encode_utf8(b));
    }
}

/// Puts a body into a frame.
pub fn frame(body: &[u8]) -> (bytes: Vec<u8>)
    ensures
        bytes@ == framed(body@),
{
    let mut head = "Content-Length: ".to_owned();
    text::push_text(&mut head, numerals::numeral(body.len() as u64).as_str());
    text::push_text(&mut head, "\r\n\r\n");
    let mut bytes = vstd::slice::slice_to_vec(head.as_str().as_bytes());
    let mut i: usize = 0;
    let ghost start = bytes@;
    while i < body.len()
        invariant
            i <= body.len(),
            bytes@ == start + body@.take(i as int),
        decreases body.len() - i,
    {
        bytes.push(body[i]);
        i += 1;
        assert(bytes@ =~= start + body@.take(i as int));
    }
    assert(body@.take(i as int) =~= body@);
    bytes
}

/// The frame of a message.
pub fn write_frame(message: &Json) -> (bytes: Vec<u8>)
    ensures
        bytes@ == framed(json::printed(message@)),
        json::reads_back(json::printed(message@), message@),
{
    frame(json::print(message).as_slice())
}

/// The id of a request: a number or a string.
#[derive(Debug, PartialEq, Eq)]
pub enum RequestId {
    Number(i64),
    String(String),
}

/// The model of a request id.
pub enum RequestIdV {
    Number(i64),
    Text(Seq<char>),
}

impl View for RequestId {
    type V = RequestIdV;

    open spec fn view(&self) -> RequestIdV {
        match self {
            RequestId::Number(n) => RequestIdV::Number(*n),
            RequestId::String(s) => RequestIdV::Text(s@),
        }
    }
}

impl Clone for RequestId {
    fn clone(&self) -> (copy: Self)
        ensures
            copy == *self,
    {
        match self {
            RequestId::Number(n) => RequestId::Number(*n),
            RequestId::String(s) => RequestId::String(s.clone()),
        }
    }
}

/// The error of a failed request.
#[derive(Debug, PartialEq, Eq)]
pub struct ResponseError {
    pub code: i64,
    pub message: String,
    pub data: Option<Json>,
}

/// The model of an error.
pub struct ResponseErrorV {
    pub code: i64,
    pub message: Seq<char>,
    pub data: Option<JsonV>,
}

/// What an optional JSON value holds.
pub open spec fn optional_view(json: Option<Json>) -> Option<JsonV> {
    match json {
        Some(json) => Some(json@),
        None => None,
    }
}

impl View for ResponseError {
    type V = ResponseErrorV;

    open spec fn view(&self) -> ResponseErrorV {
        ResponseErrorV {
            code: self.code,
            message: self.message@,
            data: optional_view(self.data),
        }
    }
}

impl ResponseErrorV {
    /// The data of the error is plain.
    pub open spec fn is_plain(self) -> bool {
        self.data matches Some(data) ==> json::plain(data, 98)
    }
}

/// An error without data.
pub open spec fn error_view(code: i64, message: Seq<char>) -> ResponseErrorV {
    ResponseErrorV { code, message, data: None }
}

impl ResponseError {
    /// An error without data.
    pub fn new(code: i64, message: &str) -> (error: ResponseError)
        ensures
            error@ == error_view(code, message@),
    {
        ResponseError { code, message: message.to_owned(), data: None }
    }
}

/// A request: it has an id and expects a response.
#[derive(Debug, PartialEq, Eq)]
pub struct Request {
    pub id: RequestId,
    pub method: String,
    pub params: Json,
}

/// A notification: it has no id and expects no response.
#[derive(Debug, PartialEq, Eq)]
pub struct Notification {
    pub method: String,
    pub params: Json,
}

/// A response of the client to a request of the server.
#[derive(Debug, PartialEq, Eq)]
pub struct ClientResponse {
    /// The id of the request, unless it was null.
    pub id: Option<RequestId>,
    pub result: Option<Json>,
    pub error: Option<Json>,
}

/// A message of the client.
#[derive(Debug, PartialEq, Eq)]
pub enum Incoming {
    Request(Request),
    Notification(Notification),
    Response(ClientResponse),
}

/// The model of a message of the client.
pub enum IncomingV {
    Request { id: RequestIdV, method: Seq<char>, params: JsonV },
    Notification { method: Seq<char>, params: JsonV },
    Response { reply_to: Option<RequestIdV>, result: Option<JsonV>, error: Option<JsonV> },
}

impl View for Incoming {
    type V = IncomingV;

    open spec fn view(&self) -> IncomingV {
        match self {
            Incoming::Request(r) => IncomingV::Request {
                id: r.id@,
                method: r.method@,
                params: r.params@,
            },
            Incoming::Notification(n) => IncomingV::Notification {
                method: n.method@,
                params: n.params@,
            },
            Incoming::Response(r) => IncomingV::Response {
                reply_to: match r.id {
                    Some(id) => Some(id@),
                    None => None,
                },
                result: optional_view(r.result),
                error: optional_view(r.error),
            },
        }
    }
}

/// The request id that a JSON value denotes: an integer of 64 bits or a string.
pub open spec fn id_of(value: JsonV) -> Option<RequestIdV> {
    match value {
        JsonV::Number(n) => match numerals::signed_value(n) {
            Some(n) => Some(RequestIdV::Number(n as i64)),
            None => None,
        },
        JsonV::Str(s) => Some(RequestIdV::Text(s)),
        _ => None,
    }
}

/// Absent or null.
pub open spec fn is_blank(value: Option<JsonV>) -> bool {
    value is None || value->0 is Null
}

/// The parameters of a message, null where it has none.
pub open spec fn params_of(message: JsonV) -> JsonV {
    match message.get("params"@) {
        Some(params) => params,
        None => JsonV::Null,
    }
}

/// The message that a JSON value denotes, or the error it is answered with: a
/// method and an id make a request, a method alone a notification, a result or an
/// error without a method a response.
pub open spec fn message_of(message: JsonV) -> Result<IncomingV, ResponseErrorV> {
    let method = message.get("method"@);
    let id = message.get("id"@);
    if !(message is Object) {
        Err(error_view(error_codes::INVALID_REQUEST, "message is not a json object"@))
    } else if method is Some && method->0 is Str {
        let name = method->0->Str_0;
        if is_blank(id) {
            Ok(IncomingV::Notification { method: name, params: params_of(message) })
        } else {
            match id_of(id->0) {
                Some(id) => Ok(
                    IncomingV::Request { id, method: name, params: params_of(message) },
                ),
                None => Err(error_view(error_codes::INVALID_REQUEST, "invalid request id"@)),
            }
        }
    } else if method is None && (message.get("result"@) is Some || message.get("error"@) is Some) {
        let result = message.get("result"@);
        let error = message.get("error"@);
        if is_blank(id) {
            Ok(IncomingV::Response { reply_to: None, result, error })
        } else {
            match id_of(id->0) {
                Some(id) => Ok(IncomingV::Response { reply_to: Some(id), result, error }),
                None => Err(error_view(error_codes::INVALID_REQUEST, "invalid response id"@)),
            }
        }
    } else {
        Err(error_view(error_codes::INVALID_REQUEST, "message has no method"@))
    }
}

fn request_id(value: &Json) -> (id: Option<RequestId>)
    ensures
        match id {
            Some(id) => id_of(value@) == Some(id@),
            None => id_of(value@) is None,
        },
{
    match value {
        Json::Number(n) => match numerals::parse_signed(n.as_str()) {
            Some(n) => Some(RequestId::Number(n)),
            None => None,
        },
        Json::Str(s) => Some(RequestId::String(s.clone())),
        _ => None,
    }
}

fn copy_of(value: Option<&Json>) -> (copy: Option<Json>)
    ensures
        optional_view(copy) == (match value {
            Some(json) => Some(json@),
            None => None,
        }),
{
    match value {
        Some(json) => Some(json.copy()),
        None => None,
    }
}

fn is_null(value: &Json) -> (null: bool)
    ensures
        null == (value@ is Null),
{
    match value {
        Json::Null => true,
        _ => false,
    }
}

/// The message that a JSON value denotes.
pub fn incoming(message: &Json) -> (result: Result<Incoming, ResponseError>)
    ensures
        match result {
            Ok(incoming) => message_of(message@) == Ok::<IncomingV, ResponseErrorV>(incoming@),
            Err(error) => message_of(message@) == Err::<IncomingV, ResponseErrorV>(error@),
        },
{
    match message {
        Json::Object(_) => {},
        _ => {
            return Err(
                ResponseError::new(error_codes::INVALID_REQUEST, "message is not a json object"),
            );
        },
    }
    let id = message.get("id");
    let blank = match id {
        None => true,
        Some(value) => is_null(value),
    };
    match message.get("method") {
        Some(Json::Str(name)) => {
            let method = name.clone();
            let params = match message.get("params") {
                Some(params) => params.copy(),
                None => Json::Null,
            };
            if blank {
                return Ok(Incoming::Notification(Notification { method, params }));
            }
            match request_id(id.unwrap()) {
                Some(id) => Ok(Incoming::Request(Request { id, method, params })),
                None => Err(ResponseError::new(error_codes::INVALID_REQUEST, "invalid request id")),
            }
        },
        Some(_) => Err(ResponseError::new(error_codes::INVALID_REQUEST, "message has no method")),
        None => {
            let result = copy_of(message.get("result"));
            let error = copy_of(message.get("error"));
            if result.is_none() && error.is_none() {
                return Err(
                    ResponseError::new(error_codes::INVALID_REQUEST, "message has no method"),
                );
            }
            if blank {
                return Ok(Incoming::Response(ClientResponse { id: None, result, error }));
            }
            match request_id(id.unwrap()) {
                Some(id) => Ok(
                    Incoming::Response(ClientResponse { id: Some(id), result, error }),
                ),
                None => Err(
                    ResponseError::new(error_codes::INVALID_REQUEST, "invalid response id"),
                ),
            }
        },
    }
}

/// The message that the body of a frame denotes, or the error it is answered
/// with.
pub open spec fn incoming_of(body: Seq<u8>) -> Result<IncomingV, ResponseErrorV> {
    match json::parsed(body) {
        Ok(message) => message_of(message),
        Err(reason) => Err(error_view(error_codes::PARSE_ERROR, "invalid json: "@ + reason)),
    }
}

/// Parses the body of a frame into a message.
pub fn parse_incoming(body: &[u8]) -> (result: Result<Incoming, ResponseError>)
    ensures
        match result {
            Ok(incoming) => incoming_of(body@) == Ok::<IncomingV, ResponseErrorV>(incoming@),
            Err(error) => incoming_of(body@) == Err::<IncomingV, ResponseErrorV>(error@),
        },
{
    match json::parse(body) {
        Ok(message) => incoming(&message),
        Err(reason) => {
            let mut message = "invalid json: ".to_owned();
            text::push_text(&mut message, reason.as_str());
            Err(ResponseError::new(error_codes::PARSE_ERROR, message.as_str()))
        },
    }
}

/// A response. Exactly one of `result` and `error` is present.
#[derive(Debug, PartialEq, Eq)]
pub struct Response {
    pub id: RequestId,
    pub result: Option<Json>,
    pub error: Option<ResponseError>,
}

impl Response {
    /// The response answers with `outcome`.
    pub open spec fn answers(self, id: RequestIdV, outcome: Result<JsonV, ResponseErrorV>) -> bool {
        &&& self.id@ == id
        &&& match outcome {
            Ok(value) => self.error is None && self.result is Some && self.result->0@ == value,
            Err(error) => self.result is None && self.error is Some && self.error->0@ == error,
        }
    }

    /// The response of a request that succeeded. A null result is present.
    pub fn success(id: RequestId, result: Json) -> (response: Response)
        ensures
            response.answers(id@, Ok(result@)),
    {
        Response { id, result: Some(result), error: None }
    }

    /// The response of a request that failed.
    pub fn failure(id: RequestId, error: ResponseError) -> (response: Response)
        ensures
            response.answers(id@, Err(error@)),
    {
        Response { id, result: None, error: Some(error) }
    }

    /// The values in the response are plain.
    pub open spec fn is_plain(self) -> bool {
        &&& self.result matches Some(result) ==> json::plain(result@, 99)
        &&& self.error matches Some(error) ==> error@.is_plain()
    }

    /// The JSON of the response, whatever it holds. The members of the response stand in
    /// the order in which they are declared, those of the values in it in name order.
    pub open spec fn json(self) -> JsonV {
        let head = seq![("jsonrpc"@, JsonV::Str("2.0"@)), ("id"@, id_view(self.id@))];
        let answered = match self.result {
            Some(result) => head.push(("result"@, json::sorted(result@))),
            None => head,
        };
        JsonV::Object(
            match self.error {
                Some(error) => answered.push(("error"@, error_json(error@))),
                None => answered,
            },
        )
    }

    /// The JSON of the response.
    pub fn to_json(&self) -> (message: Json)
        ensures
            message@ == self.json(),
            forall|id: RequestIdV, outcome: Result<JsonV, ResponseErrorV>| #[trigger]
                self.answers(id, outcome) ==> message@ == response_json(id, outcome),
    {
        let mut members: Vec<(String, Json)> = Vec::new();
        let ghost m0 = json::member_views(members@);
        assert(m0 =~= seq![]);
        json::put(&mut members, "jsonrpc", json::string("2.0"));
        json::put(&mut members, "id", id_json(&self.id));
        match &self.result {
            Some(result) => {
                json::put(&mut members, "result", result.sorted());
            },
            None => {},
        }
        match &self.error {
            Some(error) => {
                json::put(&mut members, "error", error.to_json());
            },
            None => {},
        }
        let message = json::object(members);
        assert(message@->Object_0 =~= self.json()->Object_0);
        proof {
            assert forall|id: RequestIdV, outcome: Result<JsonV, ResponseErrorV>| #[trigger]
                self.answers(id, outcome) implies message@ == response_json(id, outcome) by {
                assert(message@->Object_0 =~= response_json(id, outcome)->Object_0);
            }
        }
        message
    }
}

/// The JSON of a request id.
pub open spec fn id_view(id: RequestIdV) -> JsonV {
    match id {
        RequestIdV::Number(n) => json::int_view(n as int),
        RequestIdV::Text(s) => JsonV::Str(s),
    }
}

fn id_json(id: &RequestId) -> (json: Json)
    ensures
        json@ == id_view(id@),
{
    match id {
        RequestId::Number(n) => json::number(*n),
        RequestId::String(s) => json::string(s.as_str()),
    }
}

/// The JSON of an error. Its data is left out where there is none.
pub open spec fn error_json(error: ResponseErrorV) -> JsonV {
    let base = seq![
        ("code"@, json::int_view(error.code as int)),
        ("message"@, JsonV::Str(error.message)),
    ];
    JsonV::Object(
        match error.data {
            Some(data) => base.push(("data"@, json::sorted(data))),
            None => base,
        },
    )
}

/// The JSON of a response.
pub open spec fn response_json(
    id: RequestIdV,
    outcome: Result<JsonV, ResponseErrorV>,
) -> JsonV {
    JsonV::Object(
        seq![
            ("jsonrpc"@, JsonV::Str("2.0"@)),
            ("id"@, id_view(id)),
            match outcome {
                Ok(result) => ("result"@, json::sorted(result)),
                Err(error) => ("error"@, error_json(error)),
            },
        ],
    )
}

impl ResponseError {
    /// The JSON of the error.
    pub fn to_json(&self) -> (json: Json)
        ensures
            json@ == error_json(self@),
    {
        let mut members: Vec<(String, Json)> = Vec::new();
        let ghost m0 = json::member_views(members@);
        assert(m0 =~= seq![]);
        json::put(&mut members, "code", json::number(self.code));
        json::put(&mut members, "message", json::string(self.message.as_str()));
        match &self.data {
            Some(data) => {
                json::put(&mut members, "data", data.sorted());
            },
            None => {},
        }
        let json = json::object(members);
        assert(json@->Object_0 =~= error_json(self@)->Object_0);
        json
    }
}

/// The JSON of an error response to a message whose id is not known.
pub open spec fn null_id_error_json(error: ResponseErrorV) -> JsonV {
    JsonV::Object(
        seq![
            ("jsonrpc"@, JsonV::Str("2.0"@)),
            ("id"@, JsonV::Null),
            ("error"@, error_json(error)),
        ],
    )
}

/// The JSON of an error with plain data is plain.
proof fn lemma_error_plain(error: ResponseErrorV)
    requires
        error.is_plain(),
    ensures
        json::plain(error_json(error), 99),
{
    reveal_strlit("code");
    reveal_strlit("message");
    reveal_strlit("data");
    assert("code"@.len() == 4 && "message"@.len() == 7 && "data"@.len() == 4);
    assert("code"@[0] == 'c' && "data"@[0] == 'd');
    let members = error_json(error)->Object_0;
    assert forall|i: int| 0 <= i < members.len() implies json::plain(
        (#[trigger] members[i]).1,
        98,
    ) by {
        json::lemma_int_plain(error.code as int, 98);
        if i == 2 {
            json::law_sorted_plain(error.data->0, 98);
        }
    }
    assert(json::names(members).no_duplicates());
}

/// The JSON of a response with plain values is plain.
pub proof fn law_response_plain(response: Response)
    requires
        response.is_plain(),
    ensures
        json::plain(response.json(), json::plain_depth()),
{
    reveal_strlit("jsonrpc");
    reveal_strlit("id");
    reveal_strlit("result");
    reveal_strlit("error");
    assert("jsonrpc"@.len() == 7 && "id"@.len() == 2);
    assert("result"@.len() == 6 && "error"@.len() == 5);
    let members = response.json()->Object_0;
    assert forall|i: int| 0 <= i < members.len() implies json::plain(
        (#[trigger] members[i]).1,
        99,
    ) by {
        match response.id@ {
            RequestIdV::Number(n) => {
                json::lemma_int_plain(n as int, 99);
            },
            _ => {},
        }
        match response.result {
            Some(result) => {
                json::law_sorted_plain(result@, 99);
            },
            None => {},
        }
        match response.error {
            Some(error) => {
                lemma_error_plain(error@);
            },
            None => {},
        }
    }
    assert(json::names(members).no_duplicates());
}

/// The frame of a response. A client that reads it finds the response again.
pub fn write_response(response: &Response) -> (bytes: Vec<u8>)
    ensures
        bytes@ == framed(json::printed(response.json())),
        response.is_plain() ==> json::denotes(json::printed(response.json()), response.json()),
{
    let bytes = write_frame(&response.to_json());
    proof {
        if response.is_plain() {
            law_response_plain(*response);
        }
    }
    bytes
}

/// The frame of an error response with a null id, for a message that denotes no
/// request. A client that reads it finds the error again.
pub fn write_null_id_error(error: &ResponseError) -> (bytes: Vec<u8>)
    ensures
        bytes@ == framed(json::printed(null_id_error_json(error@))),
        error@.is_plain() ==> json::denotes(
            json::printed(null_id_error_json(error@)),
            null_id_error_json(error@),
        ),
{
    let mut members: Vec<(String, Json)> = Vec::new();
    let ghost m0 = json::member_views(members@);
    assert(m0 =~= seq![]);
    json::put(&mut members, "jsonrpc", json::string("2.0"));
    json::put(&mut members, "id", Json::Null);
    json::put(&mut members, "error", error.to_json());
    let message = json::object(members);
    assert(message@->Object_0 =~= null_id_error_json(error@)->Object_0);
    proof {
        if error@.is_plain() {
            reveal_strlit("jsonrpc");
            reveal_strlit("id");
            reveal_strlit("error");
            assert("jsonrpc"@.len() == 7 && "id"@.len() == 2 && "error"@.len() == 5);
            lemma_error_plain(error@);
            let list = null_id_error_json(error@)->Object_0;
            assert(json::names(list).no_duplicates());
            assert forall|i: int| 0 <= i < list.len() implies json::plain(
                (#[trigger] list[i]).1,
                99,
            ) by {}
            assert(json::plain(null_id_error_json(error@), json::plain_depth()));
        }
    }
    write_frame(&message)
}

/// What a request's response says when it is read back as a message: no method,
/// so that it is never taken for a request or a notification.
pub proof fn law_response_is_no_request(id: RequestIdV, outcome: Result<JsonV, ResponseErrorV>)
    ensures
        message_of(response_json(id, outcome)) matches Ok(message) && message is Response,
        message_of(response_json(id, outcome)) == Ok::<IncomingV, ResponseErrorV>(
            IncomingV::Response {
                reply_to: Some(id),
                result: match outcome {
                    Ok(result) => Some(json::sorted(result)),
                    Err(_) => None,
                },
                error: match outcome {
                    Ok(_) => None,
                    Err(error) => Some(error_json(error)),
                },
            },
        ),
{
    reveal_strlit("method");
    reveal_strlit("jsonrpc");
    reveal_strlit("id");
    reveal_strlit("result");
    reveal_strlit("error");
    let members = response_json(id, outcome)->Object_0;
    assert("id"@.len() == 2 && "jsonrpc"@.len() == 7 && "method"@.len() == 6);
    assert("result"@.len() == 6 && "error"@.len() == 5);
    assert("method"@[0] == 'm' && "result"@[0] == 'r' && "error"@[0] == 'e');
    reveal_with_fuel(json::member, 4);
    match id {
        RequestIdV::Number(n) => {
            numerals::law_numeral_round_trip(n);
        },
        _ => {},
    }
}

/// A reader of a written response finds its id and its outcome, with the members of the
/// values in name order.
pub proof fn law_response_is_found(
    response: Response,
    id: RequestIdV,
    outcome: Result<JsonV, ResponseErrorV>,
)
    requires
        response.answers(id, outcome),
        json::denotes(json::printed(response.json()), response.json()),
    ensures
        incoming_of(json::printed(response.json())) == Ok::<IncomingV, ResponseErrorV>(
            IncomingV::Response {
                reply_to: Some(id),
                result: match outcome {
                    Ok(result) => Some(json::sorted(result)),
                    Err(_) => None,
                },
                error: match outcome {
                    Ok(_) => None,
                    Err(error) => Some(error_json(error)),
                },
            },
        ),
{
    assert(response.json()->Object_0 =~= response_json(id, outcome)->Object_0);
    law_response_is_no_request(id, outcome);
}

/// A message with a method is a request where it has an id, with that id, and a notification
/// where it has none or a null one, in either case with its method and its parameters; without a
/// method it is a response where it has a result or an error. Everything else is refused.
pub proof fn law_message_read(
    message: JsonV,
    method: Seq<char>,
    id: RequestIdV,
)
    requires
        message is Object,
    ensures
        ({
            let params = match message.get("params"@) {
                Some(params) => params,
                None => JsonV::Null,
            };
            let anonymous = message.get("id"@) is None || message.get("id"@) == Some(JsonV::Null);
            &&& message.get("method"@) == Some(JsonV::Str(method)) && message.get("id"@) == Some(
                id_view(id),
            ) ==> message_of(message) == Ok::<IncomingV, ResponseErrorV>(
                IncomingV::Request { id, method, params },
            )
            &&& message.get("method"@) == Some(JsonV::Str(method)) && anonymous ==> message_of(
                message,
            ) == Ok::<IncomingV, ResponseErrorV>(IncomingV::Notification { method, params })
            &&& message.get("method"@) is None && (message.get("result"@) is Some || message.get(
                "error"@,
            ) is Some) && message.get("id"@) == Some(id_view(id)) ==> message_of(message) == Ok::<
                IncomingV,
                ResponseErrorV,
            >(
                IncomingV::Response {
                    reply_to: Some(id),
                    result: message.get("result"@),
                    error: message.get("error"@),
                },
            )
            &&& message.get("method"@) is None && message.get("result"@) is None && message.get(
                "error"@,
            ) is None ==> (message_of(message) matches Err(error) && error.code == -32600)
            &&& message.get("method"@) is Some && !(message.get("method"@)->0 is Str) ==> (message_of(
                message,
            ) matches Err(error) && error.code == -32600)
        }),
{
    match id {
        RequestIdV::Number(n) => numerals::law_numeral_round_trip(n),
        _ => {},
    }
}

/// What is no object, and what is no JSON, is refused with the protocol's codes.
pub proof fn law_malformed_refused(message: JsonV, body: Seq<u8>)
    ensures
        !(message is Object) ==> (message_of(message) matches Err(error) && error.code == -32600),
        json::parsed(body) matches Err(reason) ==> (incoming_of(body) matches Err(error)
            && error.code == -32700 && error.message == "invalid json: "@ + reason),
        json::parsed(body) matches Ok(value) ==> incoming_of(body) == message_of(value),
{
}

/// An error is written with its code, its message and, where it has some, its data; one for a
/// message whose id is not known has a null id.
pub proof fn law_error_shown(error: ResponseErrorV)
    ensures
        error_json(error).get("code"@) == Some(json::int_view(error.code as int)),
        error_json(error).get("message"@) == Some(JsonV::Str(error.message)),
        error_json(error).get("data"@) == (match error.data {
            Some(data) => Some(json::sorted(data)),
            None => None,
        }),
        null_id_error_json(error).get("jsonrpc"@) == Some(JsonV::Str("2.0"@)),
        null_id_error_json(error).get("id"@) == Some(JsonV::Null),
        null_id_error_json(error).get("error"@) == Some(error_json(error)),
{
    broadcast use {json::lemma_member_short, json::lemma_member_push};

    reveal_strlit("code");
    reveal_strlit("message");
    reveal_strlit("data");
    reveal_strlit("jsonrpc");
    reveal_strlit("id");
    reveal_strlit("error");
    assert("code"@.len() == 4 && "message"@.len() == 7 && "data"@.len() == 4);
    assert("code"@[0] == 'c' && "data"@[0] == 'd');
    assert("jsonrpc"@.len() == 7 && "id"@.len() == 2 && "error"@.len() == 5);
}

/// A response is written with the version of the protocol, with its id, and with its result or
/// its error and not with both.
pub proof fn law_response_shown(id: RequestIdV, outcome: Result<JsonV, ResponseErrorV>)
    ensures
        response_json(id, outcome).get("jsonrpc"@) == Some(JsonV::Str("2.0"@)),
        response_json(id, outcome).get("id"@) == Some(
            match id {
                RequestIdV::Number(n) => json::int_view(n as int),
                RequestIdV::Text(s) => JsonV::Str(s),
            },
        ),
        response_json(id, outcome).get("result"@) == (match outcome {
            Ok(result) => Some(json::sorted(result)),
            Err(_) => None,
        }),
        response_json(id, outcome).get("error"@) == (match outcome {
            Ok(_) => None,
            Err(error) => Some(error_json(error)),
        }),
{
    broadcast use json::lemma_member_short;

    reveal_strlit("jsonrpc");
    reveal_strlit("id");
    reveal_strlit("result");
    reveal_strlit("error");
    assert("jsonrpc"@.len() == 7 && "id"@.len() == 2);
    assert("result"@.len() == 6 && "error"@.len() == 5);
}

/// A header line with another name than `Content-Length` changes nothing of what is known of the
/// length; the name counts in any case and with white space around it.
pub proof fn law_header_lines(header: Header, name: Seq<char>, value: Seq<char>)
    requires
        !name.contains(':'),
        value.len() > 0 && value.last() != '\r' && value.last() != '\n',
    ensures
        !same_ignoring_case(text::trimmed(name), "Content-Length"@) ==> header_step(
            header,
            name + seq![':'] + value,
        ) == HeaderStep::More(Header { length: header.length, seen: true }),
        same_ignoring_case(text::trimmed(name), "Content-Length"@) ==> (match length_of(value) {
            Some(n) => header_step(header, name + seq![':'] + value) == HeaderStep::More(
                Header { length: Some(n as usize), seen: true },
            ),
            None => header_step(header, name + seq![':'] + value) == HeaderStep::Malformed(
                FrameError::InvalidLength,
            ),
        }),
{
    let line = name + seq![':'] + value;
    let k = name.len() as int;
    assert forall|j: int| 0 <= j < k implies line[j] != ':' by {
        assert(name.contains(name[j]));
    }
    lemma_first_of(line, ':', k);
    assert(line.last() == value.last());
    assert(line.take(k) =~= name);
    assert(line.skip(k + 1) =~= value);
}

} // verus!
