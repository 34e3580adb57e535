//! Text as sequences of characters: UTF-8 and UTF-16 widths, conversions, and
//! the few string operations the rest of the library is built on.

use vstd::prelude::*;
use vstd::string::*;
use vstd::utf8::*;

verus! {

/// `String::push` appends one character.
pub assume_specification[ std::string::String::push ](s: &mut std::string::String, c: char)
    ensures
        final(s)@ == old(s)@.push(c),
;

/// The number of bytes of the UTF-8 encoding of one character.
pub open spec fn utf8_width(c: char) -> nat {
    let code = c as u32;
    if code < 0x80 {
        1
    } else if code < 0x800 {
        2
    } else if code < 0x10000 {
        3
    } else {
        4
    }
}

/// The number of code units of the UTF-16 encoding of one character.
pub open spec fn utf16_width(c: char) -> nat {
    if (c as u32) < 0x10000 {
        1
    } else {
        2
    }
}

/// The number of bytes of the UTF-8 encoding of a text.
pub open spec fn utf8_len(s: Seq<char>) -> nat
    decreases s.len(),
{
    if s.len() == 0 {
        0
    } else {
        utf8_len(s.drop_last()) + utf8_width(s.last())
    }
}

/// The number of code units of the UTF-16 encoding of a text.
pub open spec fn utf16_len(s: Seq<char>) -> nat
    decreases s.len(),
{
    if s.len() == 0 {
        0
    } else {
        utf16_len(s.drop_last()) + utf16_width(s.last())
    }
}

/// The characters of a string, in order.
pub fn chars_of(s: &str) -> (chars: Vec<char>)
    ensures
        chars@ == s@,
{
    let mut chars: Vec<char> = Vec::new();
    for c in it: s.chars()
        invariant
            chars@ == it.seq().take(it.index() as int),
            it.seq() == s@,
    {
        chars.push(c);
    }
    chars
}

/// The string of the given characters.
pub fn string_of(chars: &[char]) -> (s: String)
    ensures
        s@ == chars@,
{
    let mut s = String::new();
    let mut i: usize = 0;
    while i < chars.len()
        invariant
            i <= chars.len(),
            s@ == chars@.take(i as int),
        decreases chars.len() - i,
    {
        s.push(chars[i]);
        i += 1;
        assert(chars@.take(i as int) == chars@.take(i - 1).push(chars@[i - 1]));
    }
    assert(chars@.take(i as int) == chars@);
    s
}

/// Appends one string to another.
pub fn push_text(s: &mut String, tail: &str)
    ensures
        final(s)@ == old(s)@ + tail@,
{
    s.append(tail);
}

/// Whether a character has Unicode's `White_Space` property.
pub open spec fn whitespace(c: char) -> bool {
    let code = c as u32;
    ||| 0x9 <= code <= 0xd
    ||| code == 0x20
    ||| code == 0x85
    ||| code == 0xa0
    ||| code == 0x1680
    ||| 0x2000 <= code <= 0x200a
    ||| code == 0x2028
    ||| code == 0x2029
    ||| code == 0x202f
    ||| code == 0x205f
    ||| code == 0x3000
}

/// Whether a character is white space.
pub fn is_whitespace(c: char) -> (r: bool)
    ensures
        r == whitespace(c),
{
    let code = c as u32;
    (0x9 <= code && code <= 0xd) || code == 0x20 || code == 0x85 || code == 0xa0 || code == 0x1680
        || (0x2000 <= code && code <= 0x200a) || code == 0x2028 || code == 0x2029 || code == 0x202f
        || code == 0x205f || code == 0x3000
}

/// A text without the white space in front.
pub open spec fn trimmed_start(s: Seq<char>) -> Seq<char>
    decreases s.len(),
{
    if s.len() > 0 && whitespace(s[0]) {
        trimmed_start(s.drop_first())
    } else {
        s
    }
}

/// A text without the white space at the end.
pub open spec fn trimmed_end(s: Seq<char>) -> Seq<char>
    decreases s.len(),
{
    if s.len() > 0 && whitespace(s.last()) {
        trimmed_end(s.drop_last())
    } else {
        s
    }
}

/// A text without the white space around it.
pub open spec fn trimmed(s: Seq<char>) -> Seq<char> {
    trimmed_end(trimmed_start(s))
}

/// Takes the white space in front off a text.
pub fn trim_start(s: &str) -> (t: String)
    ensures
        t@ == trimmed_start(s@),
{
    let chars = chars_of(s);
    let mut i: usize = 0;
    assert(s@.skip(0) =~= s@);
    while i < chars.len() && is_whitespace(chars[i])
        invariant
            i <= chars.len(),
            chars@ == s@,
            trimmed_start(s@) == trimmed_start(s@.skip(i as int)),
        decreases chars.len() - i,
    {
        assert(s@.skip(i as int).drop_first() =~= s@.skip(i + 1));
        i += 1;
    }
    let rest = vstd::slice::slice_subrange(chars.as_slice(), i, chars.len());
    assert(rest@ =~= s@.skip(i as int));
    string_of(rest)
}

/// Takes the white space at the end off a text.
pub fn trim_end(s: &str) -> (t: String)
    ensures
        t@ == trimmed_end(s@),
{
    let chars = chars_of(s);
    let mut n: usize = chars.len();
    assert(s@.take(n as int) =~= s@);
    while n > 0 && is_whitespace(chars[n - 1])
        invariant
            n <= chars.len(),
            chars@ == s@,
            trimmed_end(s@) == trimmed_end(s@.take(n as int)),
        decreases n,
    {
        assert(s@.take(n as int).drop_last() =~= s@.take(n - 1));
        n -= 1;
    }
    let rest = vstd::slice::slice_subrange(chars.as_slice(), 0, n);
    assert(rest@ =~= s@.take(n as int));
    string_of(rest)
}

/// Takes the white space around a text off.
pub fn trim(s: &str) -> (t: String)
    ensures
        t@ == trimmed(s@),
{
    trim_end(trim_start(s).as_str())
}

/// A string with a text behind it.
pub fn with(s: String, more: &str) -> (longer: String)
    ensures
        longer@ == s@ + more@,
{
    let mut longer = s;
    push_text(&mut longer, more);
    longer
}

/// Whether a text begins with another.
pub open spec fn has_prefix(s: Seq<char>, prefix: Seq<char>) -> bool {
    s.len() >= prefix.len() && s.take(prefix.len() as int) == prefix
}

/// Whether a string begins with another.
pub fn starts_with(s: &str, prefix: &str) -> (r: bool)
    ensures
        r == has_prefix(s@, prefix@),
{
    let chars = chars_of(s);
    let wanted = chars_of(prefix);
    if chars.len() < wanted.len() {
        return false;
    }
    let mut i: usize = 0;
    while i < wanted.len()
        invariant
            chars@ == s@,
            wanted@ == prefix@,
            chars.len() >= wanted.len(),
            i <= wanted.len(),
            forall|j: int| 0 <= j < i ==> chars@[j] == wanted@[j],
        decreases wanted.len() - i,
    {
        if chars[i] != wanted[i] {
            assert(s@.take(prefix@.len() as int)[i as int] != prefix@[i as int]);
            return false;
        }
        i += 1;
    }
    assert(s@.take(prefix@.len() as int) =~= prefix@);
    true
}

/// The texts of a list with a separator between each two.
pub open spec fn joined(list: Seq<Seq<char>>, separator: Seq<char>) -> Seq<char>
    decreases list.len(),
{
    if list.len() == 0 {
        seq![]
    } else if list.len() == 1 {
        list[0]
    } else {
        joined(list.drop_last(), separator) + separator + list.last()
    }
}

/// The texts of a list of strings.
pub open spec fn texts(list: Seq<String>) -> Seq<Seq<char>> {
    Seq::new(list.len(), |i: int| list[i]@)
}

/// Joins the strings of a list with a separator between each two.
pub fn join(list: &[String], separator: &str) -> (s: String)
    ensures
        s@ == joined(texts(list@), separator@),
{
    let mut s = String::new();
    let mut i: usize = 0;
    let ghost all = texts(list@);
    assert(all.take(0) =~= seq![]);
    while i < list.len()
        invariant
            i <= list.len(),
            all == texts(list@),
            s@ == joined(all.take(i as int), separator@),
        decreases list.len() - i,
    {
        assert(all.take(i + 1).drop_last() =~= all.take(i as int));
        if i > 0 {
            push_text(&mut s, separator);
        }
        push_text(&mut s, list[i].as_str());
        i += 1;
        assert(s@ =~= joined(all.take(i as int), separator@));
    }
    assert(all.take(i as int) =~= all);
    s
}

/// Copies a list of strings.
pub fn copy_list(list: &[String]) -> (copy: Vec<String>)
    ensures
        copy@ == list@,
{
    let mut copy: Vec<String> = Vec::new();
    let mut i: usize = 0;
    while i < list.len()
        invariant
            i <= list.len(),
            copy@ == list@.take(i as int),
        decreases list.len() - i,
    {
        copy.push(list[i].clone());
        i += 1;
        assert(list@.take(i as int) =~= list@.take(i - 1).push(list@[i - 1]));
    }
    assert(list@.take(i as int) =~= list@);
    copy
}

/// `std::str::from_utf8`: the string that the bytes encode, if they are UTF-8.
#[verifier::external_body]
pub(crate) fn text_of<'a>(bytes: &'a [u8]) -> (s: Option<&'a str>)
    ensures
        s is Some <==> valid_utf8(bytes@),
        s matches Some(t) ==> encode_utf8(t@) == bytes@,
{
    std::str::from_utf8(bytes).ok()
}

/// How the `Debug` text of a string reads.
pub uninterp spec fn quoted(s: Seq<char>) -> Seq<char>;

/// The `Debug` text of a `str`: the string in quotes, with escapes. Which characters are
/// escaped, and how, is named, not stated.
#[verifier::external_body]
pub(crate) fn quote(s: &str) -> (q: String)
    ensures
        q@ == quoted(s@),
{
    format!("{:?}", s)
}

/// What `String::from_utf8_lossy` makes of bytes.
pub uninterp spec fn lossy(bytes: Seq<u8>) -> Seq<char>;

/// `String::from_utf8_lossy`: the string that the bytes encode, with a replacement
/// character for what is not UTF-8. Bytes that are UTF-8 are decoded as they are;
/// how others are replaced is named, not stated.
#[verifier::external_body]
pub(crate) fn lossy_text(bytes: &[u8]) -> (s: String)
    ensures
        s@ == lossy(bytes@),
        valid_utf8(bytes@) ==> encode_utf8(s@) == bytes@,
{
    String::from_utf8_lossy(bytes).into_owned()
}

/// Two texts concatenated have the sum of their UTF-8 lengths.
pub proof fn lemma_utf8_len_add(a: Seq<char>, b: Seq<char>)
    ensures
        utf8_len(a + b) == utf8_len(a) + utf8_len(b),
    decreases b.len(),
{
    if b.len() == 0 {
        assert(a + b =~= a);
    } else {
        assert((a + b).drop_last() =~= a + b.drop_last());
        lemma_utf8_len_add(a, b.drop_last());
    }
}

/// Two texts concatenated have the sum of their UTF-16 lengths.
pub proof fn lemma_utf16_len_add(a: Seq<char>, b: Seq<char>)
    ensures
        utf16_len(a + b) == utf16_len(a) + utf16_len(b),
    decreases b.len(),
{
    if b.len() == 0 {
        assert(a + b =~= a);
    } else {
        assert((a + b).drop_last() =~= a + b.drop_last());
        lemma_utf16_len_add(a, b.drop_last());
    }
}

/// The UTF-8 length is the length of the encoding.
pub proof fn lemma_utf8_len_encode(s: Seq<char>)
    ensures
        encode_utf8(s).len() == utf8_len(s),
    decreases s.len(),
{
    if s.len() > 0 {
        char_is_scalar(s[0]);
        lemma_utf8_len_encode(s.drop_first());
        lemma_utf8_len_add(seq![s[0]], s.drop_first());
        assert(seq![s[0]] + s.drop_first() =~= s);
        assert(seq![s[0]].drop_last() =~= Seq::<char>::empty());
        reveal_with_fuel(utf8_len, 2);
    }
}

/// A longer prefix has at least the UTF-8 length of a shorter one, and strictly
/// more when it holds a further character.
pub proof fn lemma_utf8_len_take(s: Seq<char>, i: int, j: int)
    requires
        0 <= i <= j <= s.len(),
    ensures
        utf8_len(s.take(i)) + (j - i) <= utf8_len(s.take(j)),
    decreases j - i,
{
    if i < j {
        lemma_utf8_len_take(s, i, j - 1);
        assert(s.take(j).drop_last() =~= s.take(j - 1));
    }
}

/// A text is no longer than its UTF-8 encoding, which is at most four times as
/// long; the UTF-16 length lies between.
pub proof fn lemma_len_bounds(s: Seq<char>)
    ensures
        s.len() <= utf16_len(s) <= utf8_len(s),
        utf8_len(s) <= 4 * s.len(),
    decreases s.len(),
{
    if s.len() > 0 {
        lemma_len_bounds(s.drop_last());
    }
}

/// The first character of a text, split off, in UTF-8 lengths.
pub proof fn lemma_utf8_len_first(s: Seq<char>)
    requires
        s.len() > 0,
    ensures
        utf8_len(s) == utf8_width(s[0]) + utf8_len(s.drop_first()),
{
    lemma_utf8_len_add(seq![s[0]], s.drop_first());
    assert(seq![s[0]] + s.drop_first() =~= s);
    assert(seq![s[0]].drop_last() =~= Seq::<char>::empty());
    reveal_with_fuel(utf8_len, 2);
}

/// The encoding of a prefix, and of the rest, as parts of the whole encoding.
pub proof fn lemma_encode_split(s: Seq<char>, k: int)
    requires
        0 <= k <= s.len(),
    ensures
        utf8_len(s.take(k)) <= utf8_len(s),
        encode_utf8(s).len() == utf8_len(s),
        encode_utf8(s).subrange(0, utf8_len(s.take(k)) as int) == encode_utf8(s.take(k)),
        encode_utf8(s).subrange(utf8_len(s.take(k)) as int, utf8_len(s) as int) == encode_utf8(
            s.skip(k),
        ),
    decreases k,
{
    lemma_utf8_len_encode(s);
    lemma_utf8_len_encode(s.take(k));
    lemma_utf8_len_take(s, k, s.len() as int);
    assert(s.take(s.len() as int) =~= s);
    if k == 0 {
        assert(s.skip(0) =~= s);
        assert(s.take(0) =~= Seq::<char>::empty());
        assert(encode_utf8(s).subrange(0, 0) =~= Seq::<u8>::empty());
        assert(encode_utf8(s).subrange(0, utf8_len(s) as int) =~= encode_utf8(s));
    } else {
        let rest = s.drop_first();
        let head = encode_scalar(s[0] as u32);
        char_is_scalar(s[0]);
        lemma_encode_split(rest, k - 1);
        lemma_utf8_len_first(s);
        lemma_utf8_len_first(s.take(k));
        assert(s.take(k).drop_first() =~= rest.take(k - 1));
        assert(s.skip(k) =~= rest.skip(k - 1));
        assert(encode_utf8(s) == head + encode_utf8(rest));
        assert(head.len() == utf8_width(s[0]));
        let n = utf8_len(rest.take(k - 1)) as int;
        assert(encode_utf8(s).subrange(0, head.len() + n) =~= head + encode_utf8(rest).subrange(
            0,
            n,
        ));
        assert(encode_utf8(s).subrange(head.len() + n, utf8_len(s) as int) =~= encode_utf8(
            rest,
        ).subrange(n, utf8_len(rest) as int));
    }
}

/// The character boundaries of an encoding are exactly the UTF-8 lengths of the
/// prefixes of the text.
pub proof fn lemma_char_boundary(s: Seq<char>, n: int)
    ensures
        is_char_boundary(encode_utf8(s), n) <==> exists|k: int|
            0 <= k <= s.len() && n == utf8_len(#[trigger] s.take(k)),
    decreases s.len(),
{
    let bytes = encode_utf8(s);
    encode_utf8_valid_utf8(s);
    lemma_utf8_len_encode(s);
    assert(s.take(0) =~= Seq::<char>::empty());
    if n == 0 {
        assert(n == utf8_len(s.take(0)));
    } else if n < 0 || n > bytes.len() {
        if exists|k: int| 0 <= k <= s.len() && n == utf8_len(#[trigger] s.take(k)) {
            let k = choose|k: int| 0 <= k <= s.len() && n == utf8_len(#[trigger] s.take(k));
            lemma_utf8_len_take(s, k, s.len() as int);
            assert(s.take(s.len() as int) =~= s);
        }
    } else {
        encode_utf8_first_scalar(s);
        char_is_scalar(s[0]);
        let rest = s.drop_first();
        let w = utf8_width(s[0]) as int;
        assert(pop_first_scalar(bytes) =~= encode_utf8(rest));
        lemma_char_boundary(rest, n - w);
        if exists|k: int| 0 <= k <= rest.len() && n - w == utf8_len(#[trigger] rest.take(k)) {
            let k = choose|k: int| 0 <= k <= rest.len() && n - w == utf8_len(#[trigger] rest.take(k));
            assert(s.take(k + 1).drop_first() =~= rest.take(k));
            lemma_utf8_len_first(s.take(k + 1));
            assert(n == utf8_len(s.take(k + 1)));
        }
        if exists|k: int| 0 <= k <= s.len() && n == utf8_len(#[trigger] s.take(k)) {
            let k = choose|k: int| 0 <= k <= s.len() && n == utf8_len(#[trigger] s.take(k));
            assert(s.take(k).drop_first() =~= rest.take(k - 1));
            lemma_utf8_len_first(s.take(k));
            assert(n - w == utf8_len(rest.take(k - 1)));
        }
    }
}

/// `at` is the byte offset of the character with index `k`.
pub open spec fn byte_offset_of(s: Seq<char>, k: int, at: int) -> bool {
    0 <= k <= s.len() && at == utf8_len(s.take(k))
}

/// Splits a string at a byte offset that lies between two characters.
pub fn split_text<'a>(s: &'a str, at: usize) -> (parts: (&'a str, &'a str))
    requires
        exists|k: int| #[trigger] byte_offset_of(s@, k, at as int),
    ensures
        forall|k: int| #[trigger]
            byte_offset_of(s@, k, at as int) ==> parts.0@ == s@.take(k) && parts.1@ == s@.skip(k),
{
    proof {
        let k = choose|k: int| #[trigger] byte_offset_of(s@, k, at as int);
        lemma_char_boundary(s@, at as int);
        assert(at == utf8_len(s@.take(k)));
    }
    let parts = s.split_at(at);
    proof {
        assert forall|k: int| #[trigger] byte_offset_of(s@, k, at as int) implies parts.0@
            == s@.take(k) && parts.1@ == s@.skip(k) by {
            lemma_encode_split(s@, k);
            encode_utf8_decode_utf8(parts.0@);
            encode_utf8_decode_utf8(s@.take(k));
            encode_utf8_decode_utf8(parts.1@);
            encode_utf8_decode_utf8(s@.skip(k));
        }
    }
    parts
}

/// The number of bytes of a string.
pub fn byte_len(s: &str) -> (n: usize)
    ensures
        n == utf8_len(s@),
{
    proof {
        lemma_utf8_len_encode(s@);
    }
    s.as_bytes().len()
}

/// Whether two strings hold the same characters.
pub fn same_text(a: &str, b: &str) -> (same: bool)
    ensures
        same == (a@ == b@),
{
    let x = a.as_bytes();
    let y = b.as_bytes();
    proof {
        encode_utf8_decode_utf8(a@);
        encode_utf8_decode_utf8(b@);
    }
    if x.len() != y.len() {
        return false;
    }
    let mut i: usize = 0;
    while i < x.len()
        invariant
            x@ == encode_utf8(a@),
            y@ == encode_utf8(b@),
            x.len() == y.len(),
            i <= x.len(),
            forall|j: int| 0 <= j < i ==> x@[j] == y@[j],
        decreases x.len() - i,
    {
        if x[i] != y[i] {
            return false;
        }
        i += 1;
    }
    assert(x@ =~= y@);
    true
}

/// A text holds another, wherever in it.
pub open spec fn occurs(part: Seq<char>, s: Seq<char>) -> bool {
    exists|i: int|
        0 <= i && i + part.len() <= s.len() && #[trigger] s.subrange(i, i + part.len()) == part
}

/// What a part of a text holds, the text holds.
pub proof fn lemma_occurs(part: Seq<char>, before: Seq<char>, middle: Seq<char>, after: Seq<char>)
    requires
        occurs(part, middle),
    ensures
        occurs(part, before + middle + after),
{
    let i = choose|i: int|
        0 <= i && i + part.len() <= middle.len() && #[trigger] middle.subrange(i, i + part.len())
            == part;
    let whole = before + middle + after;
    let at = before.len() + i;
    assert(whole.subrange(at, at + part.len()) =~= middle.subrange(i, i + part.len()));
}

/// A text holds itself.
pub proof fn lemma_occurs_whole(s: Seq<char>)
    ensures
        occurs(s, s),
{
    assert(s.subrange(0, 0int + s.len()) =~= s);
}

/// What a text holds in the middle of it, it holds.
pub proof fn lemma_occurs_within(before: Seq<char>, middle: Seq<char>, after: Seq<char>)
    ensures
        occurs(middle, before + middle + after),
{
    lemma_occurs_whole(middle);
    lemma_occurs(middle, before, middle, after);
}

/// Two lists joined one behind the other, with the separator between them, are the joined lists,
/// and one text alone is joined as it is.
pub proof fn law_joined_in_parts(
    first: Seq<Seq<char>>,
    second: Seq<Seq<char>>,
    one: Seq<char>,
    separator: Seq<char>,
)
    ensures
        joined(seq![one], separator) == one,
        joined(Seq::<Seq<char>>::empty(), separator).len() == 0,
        first.len() > 0 && second.len() > 0 ==> joined(first + second, separator) == joined(
            first,
            separator,
        ) + separator + joined(second, separator),
    decreases second.len(),
{
    let all = first + second;
    if first.len() > 0 && second.len() == 1 {
        assert(all.drop_last() =~= first);
    } else if first.len() > 0 && second.len() > 1 {
        let shorter = second.drop_last();
        law_joined_in_parts(first, shorter, one, separator);
        assert(all.drop_last() =~= first + shorter);
        assert(joined(all, separator) =~= joined(first, separator) + separator + joined(
            second,
            separator,
        ));
    }
}

/// A joined list holds each of its texts.
pub proof fn law_joined_holds_each(list: Seq<Seq<char>>, separator: Seq<char>)
    ensures
        forall|k: int| 0 <= k < list.len() ==> occurs(#[trigger] list[k], joined(list, separator)),
    decreases list.len(),
{
    if list.len() == 1 {
        lemma_occurs_whole(list[0]);
    } else if list.len() > 1 {
        let shorter = list.drop_last();
        law_joined_holds_each(shorter, separator);
        let front = joined(shorter, separator);
        assert forall|k: int| 0 <= k < list.len() implies occurs(
            #[trigger] list[k],
            joined(list, separator),
        ) by {
            if k < shorter.len() {
                assert(shorter[k] == list[k]);
                lemma_occurs(list[k], seq![], front, separator + list.last());
                assert(seq![] + front + (separator + list.last()) =~= joined(list, separator));
            } else {
                lemma_occurs_within(front + separator, list[k], seq![]);
                assert(front + separator + list[k] + seq![] =~= joined(list, separator));
            }
        }
    }
}

/// Every character of a text is white space.
pub open spec fn all_white(s: Seq<char>) -> bool {
    forall|i: int| 0 <= i < s.len() ==> whitespace(#[trigger] s[i])
}

/// A text is its trimmed text between white space, and the trimmed text neither begins nor ends
/// with white space.
pub proof fn law_trimmed_between(s: Seq<char>)
    ensures
        exists|before: Seq<char>, after: Seq<char>|
            all_white(before) && all_white(after) && s == before + trimmed(s) + after,
        trimmed(s).len() > 0 ==> !whitespace(trimmed(s)[0]) && !whitespace(trimmed(s).last()),
{
    let start = trimmed_start(s);
    lemma_trimmed_start(s);
    lemma_trimmed_end(start);
    let before = s.take(s.len() - start.len());
    let after = start.skip(trimmed(s).len() as int);
    assert forall|i: int| 0 <= i < after.len() implies whitespace(#[trigger] after[i]) by {
        assert(start[trimmed(s).len() + i] == after[i]);
    }
    assert(s =~= before + trimmed(s) + after);
    assert(all_white(before) && all_white(after));
}

proof fn lemma_trimmed_start(s: Seq<char>)
    ensures
        trimmed_start(s).len() <= s.len(),
        trimmed_start(s) == s.skip(s.len() - trimmed_start(s).len()),
        forall|i: int| 0 <= i < s.len() - trimmed_start(s).len() ==> whitespace(#[trigger] s[i]),
        trimmed_start(s).len() > 0 ==> !whitespace(trimmed_start(s)[0]),
    decreases s.len(),
{
    if s.len() > 0 && whitespace(s[0]) {
        let rest = s.drop_first();
        lemma_trimmed_start(rest);
        let n = trimmed_start(s).len();
        assert(rest.skip(rest.len() - n) =~= s.skip(s.len() - n));
        assert forall|i: int| 0 <= i < s.len() - n implies whitespace(#[trigger] s[i]) by {
            if i > 0 {
                assert(rest[i - 1] == s[i]);
            }
        }
    } else {
        assert(s.skip(0) =~= s);
    }
}

proof fn lemma_trimmed_end(s: Seq<char>)
    ensures
        trimmed_end(s).len() <= s.len(),
        trimmed_end(s) == s.take(trimmed_end(s).len() as int),
        forall|i: int| trimmed_end(s).len() <= i < s.len() ==> whitespace(#[trigger] s[i]),
        trimmed_end(s).len() > 0 ==> !whitespace(trimmed_end(s).last()),
    decreases s.len(),
{
    if s.len() > 0 && whitespace(s.last()) {
        let rest = s.drop_last();
        lemma_trimmed_end(rest);
        let n = trimmed_end(s).len() as int;
        assert(rest.take(n) =~= s.take(n));
        assert forall|i: int| n <= i < s.len() implies whitespace(#[trigger] s[i]) by {
            if i < rest.len() {
                assert(rest[i] == s[i]);
            }
        }
    } else {
        assert(s.take(s.len() as int) =~= s);
    }
}

/// A character takes two UTF-16 code units exactly where its UTF-8 encoding takes four bytes, and
/// one unit else.
pub proof fn law_wide_characters(c: char)
    ensures
        1 <= utf16_width(c) <= 2,
        utf16_width(c) == 2 <==> encode_utf8(seq![c]).len() == 4,
        utf8_width(c) == encode_utf8(seq![c]).len(),
{
    lemma_utf8_len_encode(seq![c]);
    assert(seq![c].drop_last() =~= Seq::<char>::empty());
    reveal_with_fuel(utf8_len, 2);
}

} // verus!
