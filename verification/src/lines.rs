//! The line structure of a text and the positions of its characters: line
//! numbers with UTF-16 columns on one side, byte offsets on the other. The
//! offset arithmetic is the `line-index` crate's.

use line_index::{LineCol, LineIndex, TextSize, WideEncoding, WideLineCol};
use vstd::prelude::*;

use crate::text;

verus! {

/// The number of line breaks in a text.
pub open spec fn newlines(s: Seq<char>) -> nat
    decreases s.len(),
{
    if s.len() == 0 {
        0
    } else {
        newlines(s.drop_last()) + if s.last() == '\n' {
            1nat
        } else {
            0nat
        }
    }
}

/// The index of the first line break at or after `i`, or the end of the text.
pub open spec fn next_newline(s: Seq<char>, i: int) -> int
    decreases s.len() - i,
{
    if i >= s.len() || s[i] == '\n' {
        i
    } else {
        next_newline(s, i + 1)
    }
}

/// The index of the first character of a line.
pub open spec fn line_start(s: Seq<char>, line: nat) -> int
    decreases line,
{
    if line == 0 {
        0
    } else {
        next_newline(s, line_start(s, (line - 1) as nat)) + 1
    }
}

/// The index behind the last character of a line, its line break included.
pub open spec fn line_stop(s: Seq<char>, line: nat) -> int {
    let end = next_newline(s, line_start(s, line));
    if end < s.len() {
        end + 1
    } else {
        s.len() as int
    }
}

/// The index behind the last character of a line's content: its terminator,
/// `\n` or `\r\n`, is left out. A `\r` on its own is content.
pub open spec fn content_stop(s: Seq<char>, line: nat) -> int {
    let start = line_start(s, line);
    let end = next_newline(s, start);
    if end < s.len() && start < end && s[end - 1] == '\r' {
        end - 1
    } else {
        end
    }
}

/// The number of characters that fit in the first `units` UTF-16 code units of a
/// text.
pub open spec fn chars_within(s: Seq<char>, units: nat) -> nat
    decreases s.len(),
{
    if s.len() == 0 || text::utf16_width(s[0]) > units {
        0
    } else {
        1 + chars_within(s.drop_first(), (units - text::utf16_width(s[0])) as nat)
    }
}

/// The index of the character that a line and a UTF-16 column address. A line
/// behind the last one addresses the end of the text, a column behind the end of
/// the line's content that end, and a column between the two units of a surrogate
/// pair the character itself.
pub open spec fn position_index(s: Seq<char>, line: nat, column: nat) -> int {
    if line > newlines(s) {
        s.len() as int
    } else {
        let start = line_start(s, line);
        start + chars_within(s.subrange(start, content_stop(s, line)), column)
    }
}

/// The text's encoding is short enough for 32-bit offsets.
pub open spec fn indexable(s: Seq<char>) -> bool {
    text::utf8_len(s) < u32::MAX
}

/// `LineIndex::line`: the byte range of a line, its line break included, or
/// `None` behind the last line. `LineIndex::new` panics on a text of `u32::MAX`
/// bytes or more.
#[verifier::external_body]
fn line_range(source: &str, line: u32) -> (range: Option<(usize, usize)>)
    requires
        indexable(source@),
    ensures
        range is Some <==> line <= newlines(source@),
        range matches Some(r) ==> r.0 == text::utf8_len(
            source@.take(line_start(source@, line as nat)),
        ) && r.1 == text::utf8_len(source@.take(line_stop(source@, line as nat))),
{
    let range = LineIndex::new(source).line(line)?;
    Some((usize::from(range.start()), usize::from(range.end())))
}

/// `WideEncoding::Utf16.measure`: the number of UTF-16 code units of a text.
#[verifier::external_body]
fn utf16_measure(source: &str) -> (units: usize)
    ensures
        units == text::utf16_len(source@),
{
    WideEncoding::Utf16.measure(source)
}

/// `LineIndex::to_utf8`: the byte column of a UTF-16 column within its line. A
/// column between the two units of a surrogate pair comes out three bytes behind
/// the start of the character.
#[verifier::external_body]
fn utf8_column(source: &str, line: u32, column: u32) -> (col: Option<u32>)
    requires
        indexable(source@),
        line <= newlines(source@),
        column <= text::utf16_len(
            source@.subrange(
                line_start(source@, line as nat),
                line_stop(source@, line as nat),
            ),
        ),
    ensures
        col == Some(
            utf8_column_of(
                source@.subrange(
                    line_start(source@, line as nat),
                    line_stop(source@, line as nat),
                ),
                column as nat,
            ) as u32,
        ),
{
    let wide = WideLineCol { line, col: column };
    let found = LineIndex::new(source).to_utf8(WideEncoding::Utf16, wide)?;
    Some(found.col)
}

/// The byte column of a UTF-16 column of one line.
pub open spec fn utf8_column_of(line: Seq<char>, column: nat) -> nat {
    let k = chars_within(line, column) as int;
    text::utf8_len(line.take(k)) + if text::utf16_len(line.take(k)) == column {
        0nat
    } else {
        3nat
    }
}

/// `LineIndex::offset`: the byte offset of a byte column of a line.
#[verifier::external_body]
fn line_offset(source: &str, line: u32, column: u32) -> (offset: Option<usize>)
    requires
        indexable(source@),
        line <= newlines(source@),
        text::utf8_len(source@.take(line_start(source@, line as nat))) + column <= u32::MAX,
    ensures
        offset == Some(
            (text::utf8_len(source@.take(line_start(source@, line as nat))) + column) as usize,
        ),
{
    let found = LineIndex::new(source).offset(LineCol { line, col: column })?;
    Some(usize::from(found))
}

/// The next line break is at or after `i`, nothing before it is one, and it is
/// one unless the text ends.
pub proof fn lemma_next_newline(s: Seq<char>, i: int)
    requires
        0 <= i <= s.len(),
    ensures
        i <= next_newline(s, i) <= s.len(),
        forall|j: int| i <= j < next_newline(s, i) ==> s[j] != '\n',
        next_newline(s, i) < s.len() ==> s[next_newline(s, i)] == '\n',
        newlines(s.take(next_newline(s, i))) == newlines(s.take(i)),
        next_newline(s, i) < s.len() ==> newlines(s.take(next_newline(s, i) + 1)) == newlines(
            s.take(i),
        ) + 1,
    decreases s.len() - i,
{
    if i < s.len() {
        assert(s.take(i + 1).drop_last() =~= s.take(i));
        if s[i] != '\n' {
            lemma_next_newline(s, i + 1);
        }
    }
}

/// A line of the text starts within it, behind as many line breaks as its number
/// says, and behind a line break unless it is the first.
pub proof fn lemma_line_start(s: Seq<char>, line: nat)
    requires
        line <= newlines(s),
    ensures
        0 <= line_start(s, line) <= s.len(),
        newlines(s.take(line_start(s, line))) == line,
        line > 0 ==> line_start(s, line) > 0 && s[line_start(s, line) - 1] == '\n',
    decreases line,
{
    if line == 0 {
        assert(s.take(0) =~= Seq::<char>::empty());
    } else {
        let before = (line - 1) as nat;
        lemma_line_start(s, before);
        lemma_next_newline(s, line_start(s, before));
        assert(s.take(s.len() as int) =~= s);
    }
}

/// The characters within a number of units take at most these units, and one
/// more character would take more.
pub proof fn lemma_chars_within(s: Seq<char>, units: nat)
    ensures
        chars_within(s, units) <= s.len(),
        text::utf16_len(s.take(chars_within(s, units) as int)) <= units,
        chars_within(s, units) < s.len() ==> units < text::utf16_len(
            s.take(chars_within(s, units) as int),
        ) + text::utf16_width(s[chars_within(s, units) as int]),
    decreases s.len(),
{
    let k = chars_within(s, units) as int;
    if s.len() == 0 || text::utf16_width(s[0]) > units {
        assert(s.take(0) =~= Seq::<char>::empty());
    } else {
        let rest = s.drop_first();
        lemma_chars_within(rest, (units - text::utf16_width(s[0])) as nat);
        assert(s.take(k) =~= seq![s[0]] + rest.take(k - 1));
        text::lemma_utf16_len_add(seq![s[0]], rest.take(k - 1));
        assert(seq![s[0]].drop_last() =~= Seq::<char>::empty());
        reveal_with_fuel(text::utf16_len, 2);
    }
}

/// Appending to a text leaves the characters within at most its own units
/// unchanged; more units than a text has hold all of it.
pub proof fn lemma_chars_within_prefix(s: Seq<char>, tail: Seq<char>, units: nat)
    ensures
        units <= text::utf16_len(s) ==> chars_within(s + tail, units) == chars_within(s, units),
        units >= text::utf16_len(s) ==> chars_within(s, units) == s.len(),
    decreases s.len(),
{
    if s.len() == 0 {
        if units == 0 && tail.len() > 0 {
            assert(chars_within(s + tail, 0) == 0);
        }
    } else {
        let rest = s.drop_first();
        assert(s =~= seq![s[0]] + rest);
        text::lemma_utf16_len_add(seq![s[0]], rest);
        assert(seq![s[0]].drop_last() =~= Seq::<char>::empty());
        reveal_with_fuel(text::utf16_len, 2);
        assert((s + tail).drop_first() =~= rest + tail);
        assert((s + tail)[0] == s[0]);
        if text::utf16_width(s[0]) <= units {
            lemma_chars_within_prefix(rest, tail, (units - text::utf16_width(s[0])) as nat);
        }
    }
}

/// A line without its terminator, `\n` or `\r\n`.
pub open spec fn without_terminator(line: Seq<char>) -> Seq<char> {
    let n = line.len() as int;
    if n >= 2 && line[n - 1] == '\n' && line[n - 2] == '\r' {
        line.take(n - 2)
    } else if n >= 1 && line[n - 1] == '\n' {
        line.take(n - 1)
    } else {
        line
    }
}

/// Takes the terminator off a line.
fn strip_terminator<'a>(raw: &'a str) -> (content: &'a str)
    ensures
        content@ == without_terminator(raw@),
{
    let chars = text::chars_of(raw);
    let ghost n = raw@.len() as int;
    let bytes = text::byte_len(raw);
    assert(raw@.take(n) =~= raw@);
    if chars.len() == 0 || chars[chars.len() - 1] != '\n' {
        return raw;
    }
    assert(raw@.take(n).drop_last() =~= raw@.take(n - 1));
    assert(text::byte_offset_of(raw@, n - 1, bytes - 1));
    if chars.len() >= 2 && chars[chars.len() - 2] == '\r' {
        assert(raw@.take(n - 1).drop_last() =~= raw@.take(n - 2));
        assert(text::byte_offset_of(raw@, n - 2, bytes - 2));
        return text::split_text(raw, bytes - 2).0;
    }
    text::split_text(raw, bytes - 1).0
}

/// Moves a byte offset down to the start of the character that it lies in.
fn floor_boundary(source: &str, at: usize) -> (offset: usize)
    requires
        at <= text::utf8_len(source@),
    ensures
        forall|k: int|
            0 <= k <= source@.len() && text::utf8_len(#[trigger] source@.take(k)) <= at && (k
                < source@.len() ==> at < text::utf8_len(source@.take(k)) + text::utf8_width(
                source@[k],
            )) ==> offset == text::utf8_len(source@.take(k)),
{
    let ghost s = source@;
    let mut offset: usize = at;
    assert(s.take(0) =~= Seq::<char>::empty());
    proof {
        text::lemma_char_boundary(s, 0);
    }
    while !source.is_char_boundary(offset)
        invariant
            s == source@,
            vstd::utf8::is_char_boundary(vstd::utf8::encode_utf8(s), 0),
            offset <= at,
            forall|n: int|
                offset < n <= at ==> !vstd::utf8::is_char_boundary(vstd::utf8::encode_utf8(s), n),
        decreases offset,
    {
        offset = offset - 1;
    }
    proof {
        text::lemma_char_boundary(s, offset as int);
        let b = choose|b: int|
            0 <= b <= s.len() && offset == text::utf8_len(#[trigger] s.take(b));
        assert forall|k: int|
            0 <= k <= s.len() && text::utf8_len(#[trigger] s.take(k)) <= at && (k < s.len() ==> at
                < text::utf8_len(s.take(k)) + text::utf8_width(s[k])) implies offset
            == text::utf8_len(s.take(k)) by {
            text::lemma_char_boundary(s, text::utf8_len(s.take(k)) as int);
            if b < k {
                text::lemma_utf8_len_take(s, b, k);
                assert(vstd::utf8::is_char_boundary(
                    vstd::utf8::encode_utf8(s),
                    text::utf8_len(s.take(k)) as int,
                ));
            } else if b > k {
                assert(s.take(k + 1).drop_last() =~= s.take(k));
                text::lemma_utf8_len_take(s, k + 1, b);
            }
        }
    }
    offset
}

/// The parts of a line, and of the text before it, in lengths.
proof fn lemma_line_parts(s: Seq<char>, line: nat)
    requires
        line <= newlines(s),
    ensures
        0 <= line_start(s, line) <= content_stop(s, line) <= line_stop(s, line) <= s.len(),
        without_terminator(s.subrange(line_start(s, line), line_stop(s, line))) == s.subrange(
            line_start(s, line),
            content_stop(s, line),
        ),
{
    let start = line_start(s, line);
    let end = next_newline(s, start);
    lemma_line_start(s, line);
    lemma_next_newline(s, start);
    let whole = s.subrange(start, line_stop(s, line));
    let n = whole.len() as int;
    if end < s.len() {
        assert(whole[n - 1] == '\n');
        if n >= 2 {
            assert(whole[n - 2] == s[end - 1]);
        }
    } else if n > 0 {
        assert(whole[n - 1] == s[s.len() - 1]);
    }
    assert(without_terminator(whole) =~= s.subrange(start, content_stop(s, line)));
}

/// Clamping a column to the width of the content changes no addressed character;
/// the byte column of the clamped one lies in that character.
proof fn lemma_clamped_column(content: Seq<char>, tail: Seq<char>, character: nat, col: nat)
    requires
        col == (if character > text::utf16_len(content) {
            text::utf16_len(content)
        } else {
            character
        }),
    ensures
        ({
            let whole = content + tail;
            let k = chars_within(content, character) as int;
            let at = utf8_column_of(whole, col);
            &&& 0 <= k <= content.len()
            &&& col <= text::utf16_len(whole)
            &&& text::utf8_len(whole.take(k)) <= at <= text::utf8_len(whole)
            &&& k < whole.len() ==> at < text::utf8_len(whole.take(k)) + text::utf8_width(whole[k])
        }),
{
    let whole = content + tail;
    let k = chars_within(content, character) as int;
    text::lemma_utf16_len_add(content, tail);
    lemma_chars_within_prefix(content, tail, col);
    lemma_chars_within_prefix(content, tail, character);
    lemma_chars_within(content, col);
    assert(k == chars_within(whole, col));
    assert(whole.take(k) =~= content.take(k));
    text::lemma_utf8_len_take(whole, k, whole.len() as int);
    assert(whole.take(whole.len() as int) =~= whole);
    if k < content.len() {
        assert(whole[k] == content[k]);
        assert(whole.take(k + 1).drop_last() =~= whole.take(k));
        text::lemma_utf8_len_take(whole, k + 1, whole.len() as int);
    } else {
        assert(content.take(k) =~= content);
    }
}

/// The byte offset that the column lookup gives lies in the addressed character.
proof fn lemma_lookup(s: Seq<char>, line: nat, character: nat, col: nat)
    requires
        line <= newlines(s),
        col == ({
            let width = text::utf16_len(s.subrange(line_start(s, line), content_stop(s, line)));
            if character > width {
                width
            } else {
                character
            }
        }),
    ensures
        ({
            let whole = s.subrange(line_start(s, line), line_stop(s, line));
            let before = text::utf8_len(s.take(line_start(s, line)));
            let at = before + utf8_column_of(whole, col);
            let k = position_index(s, line, character);
            &&& col <= text::utf16_len(whole)
            &&& utf8_column_of(whole, col) <= at <= text::utf8_len(s)
            &&& 0 <= k <= s.len()
            &&& text::utf8_len(s.take(k)) <= at
            &&& k < s.len() ==> at < text::utf8_len(s.take(k)) + text::utf8_width(s[k])
        }),
{
    let first = line_start(s, line);
    let end = line_stop(s, line);
    let whole = s.subrange(first, end);
    let content = s.subrange(first, content_stop(s, line));
    let tail = s.subrange(content_stop(s, line), end);
    let k = chars_within(content, character) as int;
    lemma_line_parts(s, line);
    assert(whole =~= content + tail);
    lemma_clamped_column(content, tail, character, col);
    assert(s =~= s.take(first) + whole + s.skip(end));
    text::lemma_utf8_len_add(s.take(first) + whole, s.skip(end));
    text::lemma_utf8_len_add(s.take(first), whole);
    text::lemma_utf8_len_add(s.take(first), whole.take(k));
    assert(s.take(first) + whole.take(k) =~= s.take(first + k));
    if k == whole.len() {
        assert(whole.take(k) =~= whole);
    } else {
        assert(s[first + k] == whole[k]);
    }
}

/// The byte offset of the character that a line and a UTF-16 column address.
pub fn byte_offset(source: &str, line: u32, character: u32) -> (offset: usize)
    requires
        indexable(source@),
    ensures
        text::byte_offset_of(
            source@,
            position_index(source@, line as nat, character as nat),
            offset as int,
        ),
{
    let ghost s = source@;
    let ghost number = line as nat;
    let (start, stop) = match line_range(source, line) {
        None => {
            assert(s.take(s.len() as int) =~= s);
            return text::byte_len(source);
        },
        Some(range) => range,
    };
    let ghost first = line_start(s, number);
    let ghost end = line_stop(s, number);
    proof {
        lemma_line_parts(s, number);
        assert(text::byte_offset_of(s, end, stop as int));
        assert(s.take(end).take(first) =~= s.take(first));
        assert(text::byte_offset_of(s.take(end), first, start as int));
    }
    let (upto, _) = text::split_text(source, stop);
    let (_, raw) = text::split_text(upto, start);
    assert(raw@ =~= s.subrange(first, end));
    let content = strip_terminator(raw);
    let width = utf16_measure(content);
    let col: u32 = if character as usize > width {
        width as u32
    } else {
        character
    };
    proof {
        lemma_lookup(s, number, character as nat, col as nat);
    }
    let found: Option<usize> = match utf8_column(source, line, col) {
        None => None,
        Some(column) => line_offset(source, line, column),
    };
    let at: usize = match found {
        None => stop,
        Some(at) => at,
    };
    let total = text::byte_len(source);
    let clamped = if at > total {
        total
    } else {
        at
    };
    floor_boundary(source, clamped)
}

/// The number of the line in which a character lies.
pub open spec fn line_of(s: Seq<char>, k: int) -> nat {
    newlines(s.take(k))
}

/// The UTF-16 column of a character within its line.
pub open spec fn column_of(s: Seq<char>, k: int) -> nat {
    text::utf16_len(s.subrange(line_start(s, line_of(s, k)), k))
}

/// `LineIndex::line_col`: the line of a byte offset between two characters, and
/// its byte column. The function panics on an offset within a character or behind
/// the end.
#[verifier::external_body]
fn line_col(source: &str, offset: usize) -> (found: (u32, u32))
    requires
        indexable(source@),
        exists|k: int| #[trigger] text::byte_offset_of(source@, k, offset as int),
    ensures
        forall|k: int| #[trigger]
            text::byte_offset_of(source@, k, offset as int) ==> found.0 == line_of(source@, k)
                && found.1 == text::utf8_len(
                source@.subrange(line_start(source@, line_of(source@, k)), k),
            ),
{
    let found = LineIndex::new(source).line_col(TextSize::new(offset as u32));
    (found.line, found.col)
}

/// The characters from `start` to `k` take `column` bytes.
pub open spec fn byte_column_of(s: Seq<char>, start: int, k: int, column: int) -> bool {
    start <= k <= s.len() && column == text::utf8_len(s.subrange(start, k))
}

/// `LineIndex::to_wide`: the UTF-16 column of a byte column between two characters
/// of a line.
#[verifier::external_body]
fn wide_column(source: &str, line: u32, column: u32) -> (col: Option<u32>)
    requires
        indexable(source@),
        line <= newlines(source@),
        exists|k: int|
            k <= line_stop(source@, line as nat) && #[trigger] byte_column_of(
                source@,
                line_start(source@, line as nat),
                k,
                column as int,
            ),
    ensures
        forall|k: int|
            k <= line_stop(source@, line as nat) && #[trigger] byte_column_of(
                source@,
                line_start(source@, line as nat),
                k,
                column as int,
            ) ==> col == Some(
                text::utf16_len(source@.subrange(line_start(source@, line as nat), k)) as u32,
            ),
{
    let narrow = LineCol { line, col: column };
    let found = LineIndex::new(source).to_wide(WideEncoding::Utf16, narrow)?;
    Some(found.col)
}

/// A prefix has no more line breaks than the text.
pub proof fn lemma_newlines_take(s: Seq<char>, i: int, j: int)
    requires
        0 <= i <= j <= s.len(),
    ensures
        newlines(s.take(i)) <= newlines(s.take(j)),
        newlines(s.take(j)) <= newlines(s.take(i)) + (j - i),
    decreases j - i,
{
    if i < j {
        lemma_newlines_take(s, i, j - 1);
        assert(s.take(j).drop_last() =~= s.take(j - 1));
    }
}

/// The line of a character starts at or before it and stops at or behind it.
pub proof fn lemma_line_of(s: Seq<char>, k: int)
    requires
        0 <= k <= s.len(),
    ensures
        line_of(s, k) <= newlines(s),
        0 <= line_start(s, line_of(s, k)) <= k <= next_newline(s, line_start(s, line_of(s, k))),
        k <= line_stop(s, line_of(s, k)),
{
    let line = line_of(s, k);
    assert(s.take(s.len() as int) =~= s);
    lemma_newlines_take(s, k, s.len() as int);
    lemma_line_start(s, line);
    let start = line_start(s, line);
    lemma_next_newline(s, start);
    if k < start {
        assert(s.take(start).drop_last() =~= s.take(start - 1));
        lemma_newlines_take(s, k, start - 1);
    }
    let end = next_newline(s, start);
    if k > end {
        lemma_newlines_take(s, end + 1, k);
    }
}

/// The line and the UTF-16 column of the character at a byte offset.
pub fn position_at(source: &str, offset: usize) -> (found: (u32, u32))
    requires
        indexable(source@),
        exists|k: int| #[trigger] text::byte_offset_of(source@, k, offset as int),
    ensures
        forall|k: int| #[trigger]
            text::byte_offset_of(source@, k, offset as int) ==> found.0 == line_of(source@, k)
                && found.1 == column_of(source@, k),
{
    let ghost s = source@;
    let (line, column) = line_col(source, offset);
    proof {
        let k = choose|k: int| #[trigger] text::byte_offset_of(s, k, offset as int);
        lemma_line_of(s, k);
        assert(byte_column_of(s, line_start(s, line as nat), k, column as int));
    }
    let wide = wide_column(source, line, column);
    proof {
        assert forall|k: int| #[trigger] text::byte_offset_of(s, k, offset as int) implies wide
            is Some && wide->0 == column_of(s, k) by {
            lemma_line_of(s, k);
            let start = line_start(s, line as nat);
            assert(byte_column_of(s, start, k, column as int));
            let part = s.subrange(start, k);
            text::lemma_len_bounds(part);
        }
    }
    (line, wide.unwrap())
}

/// A position that was taken from a character addresses that character again, in
/// every text that begins the same up to it, unless the character lies between
/// the `\r` and the `\n` of a line break there.
pub proof fn law_position_round_trip(s: Seq<char>, t: Seq<char>, k: int)
    requires
        0 <= k <= s.len(),
        k <= t.len(),
        s.take(k) == t.take(k),
        !(0 < k < t.len() && t[k - 1] == '\r' && t[k] == '\n'),
    ensures
        position_index(t, line_of(s, k), column_of(s, k)) == k,
{
    let line = line_of(s, k);
    lemma_line_of(s, k);
    lemma_line_of(t, k);
    lemma_line_start_prefix(s, t, k, line);
    let start = line_start(t, line);
    let stop = content_stop(t, line);
    lemma_line_parts(t, line);
    lemma_next_newline(t, start);
    assert(start <= k <= stop);
    let part = t.subrange(start, k);
    assert(part =~= t.take(k).subrange(start, k));
    assert(s.subrange(start, k) =~= s.take(k).subrange(start, k));
    let content = t.subrange(start, stop);
    let tail = t.subrange(k, stop);
    assert(content =~= part + tail);
    lemma_chars_within_prefix(part, tail, text::utf16_len(part));
}

/// Texts that begin the same up to a character have the same line starts up to
/// its line.
proof fn lemma_line_start_prefix(s: Seq<char>, t: Seq<char>, k: int, line: nat)
    requires
        0 <= k <= s.len(),
        k <= t.len(),
        s.take(k) == t.take(k),
        line <= line_of(s, k),
    ensures
        line_start(s, line) == line_start(t, line),
        0 <= line_start(s, line) <= k,
    decreases line,
{
    if line > 0 {
        let before = (line - 1) as nat;
        lemma_line_start_prefix(s, t, k, before);
        let p = line_start(s, before);
        lemma_line_of(s, k);
        lemma_line_start(s, before);
        lemma_next_newline(s, p);
        lemma_next_newline(t, p);
        let a = next_newline(s, p);
        let b = next_newline(t, p);
        if a >= k {
            lemma_newlines_take(s, k, a);
        }
        assert(a < k);
        assert(s.take(k)[a] == t.take(k)[a]);
        assert forall|j: int| p <= j < a implies t[j] != '\n' by {
            assert(s.take(k)[j] == t.take(k)[j]);
        }
        if b < a {
            assert(s.take(k)[b] == t.take(k)[b]);
        }
        assert(a == b);
    }
}

/// A line without the `\r` at its end.
pub open spec fn without_return(line: Seq<char>) -> Seq<char> {
    if line.len() > 0 && line.last() == '\r' {
        line.drop_last()
    } else {
        line
    }
}

/// The lines of a text, without their terminators. A line break at the end of the
/// text begins no further line.
pub open spec fn line_list(s: Seq<char>) -> Seq<Seq<char>>
    decreases s.len(),
{
    if s.len() == 0 {
        seq![]
    } else {
        let end = next_newline(s, 0);
        if end < 0 || end >= s.len() {
            seq![s]
        } else {
            seq![without_return(s.take(end))] + line_list(s.skip(end + 1))
        }
    }
}

/// The lines of a text, without their terminators.
pub fn text_lines(source: &str) -> (list: Vec<String>)
    ensures
        text::texts(list@) == line_list(source@),
{
    let ghost s = source@;
    let chars = text::chars_of(source);
    let mut list: Vec<String> = Vec::new();
    let mut at: usize = 0;
    assert(s.skip(0) =~= s);
    assert(text::texts(list@) + line_list(s) =~= line_list(s));
    while at < chars.len()
        invariant
            at <= chars.len(),
            chars@ == s,
            text::texts(list@) + line_list(s.skip(at as int)) == line_list(s),
        decreases chars.len() - at,
    {
        let ghost rest = s.skip(at as int);
        let ghost done = text::texts(list@);
        let mut end: usize = at;
        while end < chars.len() && chars[end] != '\n'
            invariant
                at <= end <= chars.len(),
                chars@ == s,
                rest == s.skip(at as int),
                next_newline(rest, 0) == next_newline(rest, end - at),
            decreases chars.len() - end,
        {
            assert(rest[end - at] == s[end as int]);
            end += 1;
        }
        if end < chars.len() {
            assert(rest[end - at] == s[end as int]);
            let stop: usize = if end > at && chars[end - 1] == '\r' {
                end - 1
            } else {
                end
            };
            let line = text::string_of(vstd::slice::slice_subrange(chars.as_slice(), at, stop));
            let ghost text = line@;
            list.push(line);
            proof {
                assert(text =~= without_return(rest.take(end - at)));
                assert(rest.skip(end - at + 1) =~= s.skip(end + 1));
                assert(text::texts(list@) =~= done.push(text));
                assert(done + (seq![text] + line_list(s.skip(end + 1))) =~= done.push(text)
                    + line_list(s.skip(end + 1)));
            }
            at = end + 1;
        } else {
            let line = text::string_of(
                vstd::slice::slice_subrange(chars.as_slice(), at, chars.len()),
            );
            let ghost text = line@;
            list.push(line);
            proof {
                assert(text =~= rest);
                assert(text::texts(list@) =~= done.push(text));
                assert(s.skip(end as int) =~= Seq::<char>::empty());
                assert(done + seq![rest] =~= done.push(text) + line_list(s.skip(end as int)));
            }
            at = end;
        }
    }
    assert(s.skip(at as int) =~= Seq::<char>::empty());
    assert(text::texts(list@) + line_list(s.skip(at as int)) =~= text::texts(list@));
    list
}

/// The lines of a text are its lines: a line in front of a line break, without the break and
/// without the `\r` before it, and then those of the rest; a text without a line break is one
/// line, and the empty text has none.
pub proof fn law_lines_listed(line: Seq<char>, rest: Seq<char>)
    requires
        !line.contains('\n'),
    ensures
        line_list(line + seq!['\n'] + rest) == seq![
            if line.len() > 0 && line.last() == '\r' {
                line.drop_last()
            } else {
                line
            },
        ] + line_list(rest),
        line.len() > 0 ==> line_list(line) == seq![line],
        line_list(Seq::<char>::empty()).len() == 0,
{
    let s = line + seq!['\n'] + rest;
    let n = line.len() as int;
    lemma_break_at(line, seq!['\n'] + rest, 0);
    lemma_break_at(line, Seq::empty(), 0);
    assert(line + (seq!['\n'] + rest) =~= s);
    assert(line + Seq::<char>::empty() =~= line);
    assert(s[n] == '\n');
    assert(s.take(n) =~= line);
    assert(s.skip(n + 1) =~= rest);
}

proof fn lemma_break_at(line: Seq<char>, rest: Seq<char>, i: int)
    requires
        !line.contains('\n'),
        0 <= i <= line.len(),
        rest.len() > 0 ==> rest[0] == '\n',
    ensures
        next_newline(line + rest, i) == line.len(),
    decreases line.len() - i,
{
    let s = line + rest;
    if i < line.len() {
        assert(s[i] == line[i]);
        assert(line.contains(line[i]));
        lemma_break_at(line, rest, i + 1);
    } else if rest.len() > 0 {
        assert(s[i] == '\n');
    }
}

/// A line behind the last one addresses the end of the text, and a column behind the end of the
/// content of a line that end; every other position lies within the content of its line.
pub proof fn law_position_clamped(s: Seq<char>, line: nat, column: nat)
    ensures
        line > newlines(s) ==> position_index(s, line, column) == s.len(),
        line <= newlines(s) ==> line_start(s, line) <= position_index(s, line, column)
            <= content_stop(s, line),
        line <= newlines(s) && column >= text::utf16_len(
            s.subrange(line_start(s, line), content_stop(s, line)),
        ) ==> position_index(s, line, column) == content_stop(s, line),
{
    if line <= newlines(s) {
        lemma_line_start(s, line);
        lemma_next_newline(s, line_start(s, line));
        let content = s.subrange(line_start(s, line), content_stop(s, line));
        lemma_chars_within(content, column);
        if column >= text::utf16_len(content) {
            lemma_all_within(content, column);
        }
    }
}

proof fn lemma_all_within(s: Seq<char>, units: nat)
    requires
        units >= text::utf16_len(s),
    ensures
        chars_within(s, units) == s.len(),
    decreases s.len(),
{
    if s.len() > 0 {
        let rest = s.drop_first();
        assert(s =~= seq![s[0]] + rest);
        text::lemma_utf16_len_add(seq![s[0]], rest);
        assert(seq![s[0]].drop_last() =~= Seq::<char>::empty());
        reveal_with_fuel(text::utf16_len, 2);
        lemma_all_within(rest, (units - text::utf16_width(s[0])) as nat);
    }
}

/// A line in front of a line break, which ends before the `\r` of a `\r\n`, moves every later line
/// down by one and back by its own length.
pub proof fn law_lines_addressed(line: Seq<char>, rest: Seq<char>, n: nat)
    requires
        !line.contains('\n'),
        n <= newlines(rest),
    ensures
        newlines(line + seq!['\n'] + rest) == 1 + newlines(rest),
        line_start(line + seq!['\n'] + rest, 0) == 0,
        content_stop(line + seq!['\n'] + rest, 0) == (if line.len() > 0 && line.last() == '\r' {
            line.len() - 1
        } else {
            line.len() as int
        }),
        line_start(line + seq!['\n'] + rest, n + 1) == line.len() + 1 + line_start(rest, n),
        content_stop(line + seq!['\n'] + rest, n + 1) == line.len() + 1 + content_stop(rest, n),
{
    let s = line + seq!['\n'] + rest;
    lemma_break_at(line, seq!['\n'] + rest, 0);
    assert(line + (seq!['\n'] + rest) =~= s);
    lemma_newlines_behind(line, rest);
    lemma_lines_behind(line, rest, n);
    lemma_line_start(rest, n);
    lemma_next_newline(rest, line_start(rest, n));
    lemma_break_behind(line, rest, line_start(rest, n));
    let end = next_newline(rest, line_start(rest, n));
    if end > 0 {
        assert(s[line.len() + 1 + end - 1] == rest[end - 1]);
    }
    if line.len() > 0 {
        assert(s[line.len() - 1] == line.last());
    }
}

proof fn lemma_newlines_behind(line: Seq<char>, rest: Seq<char>)
    requires
        !line.contains('\n'),
    ensures
        newlines(line + seq!['\n'] + rest) == 1 + newlines(rest),
    decreases line.len() + rest.len(),
{
    let s = line + seq!['\n'] + rest;
    if rest.len() > 0 {
        lemma_newlines_behind(line, rest.drop_last());
        assert(s.drop_last() =~= line + seq!['\n'] + rest.drop_last());
        assert(s.last() == rest.last());
    } else {
        assert(s.drop_last() =~= line);
        assert(s.last() == '\n');
        lemma_next_newline(line, 0);
        lemma_break_at(line, seq![], 0);
        assert(line + Seq::<char>::empty() =~= line);
        assert(line.take(line.len() as int) =~= line);
        assert(line.take(0) =~= Seq::<char>::empty());
    }
}

proof fn lemma_break_behind(line: Seq<char>, rest: Seq<char>, i: int)
    requires
        0 <= i <= rest.len(),
    ensures
        next_newline(line + seq!['\n'] + rest, line.len() + 1 + i) == line.len() + 1
            + next_newline(rest, i),
    decreases rest.len() - i,
{
    let s = line + seq!['\n'] + rest;
    if i < rest.len() {
        assert(s[line.len() + 1 + i] == rest[i]);
        if rest[i] != '\n' {
            lemma_break_behind(line, rest, i + 1);
        }
    }
}

proof fn lemma_lines_behind(line: Seq<char>, rest: Seq<char>, n: nat)
    requires
        !line.contains('\n'),
        n <= newlines(rest),
    ensures
        line_start(line + seq!['\n'] + rest, n + 1) == line.len() + 1 + line_start(rest, n),
    decreases n,
{
    let s = line + seq!['\n'] + rest;
    lemma_break_at(line, seq!['\n'] + rest, 0);
    assert(line + (seq!['\n'] + rest) =~= s);
    if n > 0 {
        let before = (n - 1) as nat;
        lemma_lines_behind(line, rest, before);
        lemma_line_start(rest, before);
        lemma_break_behind(line, rest, line_start(rest, before));
    } else {
        reveal_with_fuel(line_start, 2);
    }
}

} // verus!
