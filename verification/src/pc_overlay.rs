//! What the presentation compiler and an unsaved buffer tell about symbols that the
//! index has not seen: top-level declarations of the buffer, the symbol at the
//! cursor, and the identifier under it.

use vstd::prelude::*;
use vstd::string::*;

use crate::convert::Span;
use crate::documents::DocumentStore;
use crate::lines;
use crate::order;
use crate::pc::{PcDefLocation, PcDefOrigin, PcDefinition, PcQueryService, PcSpan};
use crate::text;

verus! {

/// A top-level symbol of an unsaved buffer that the index does not have.
#[derive(Debug, PartialEq, Eq)]
pub struct PcOnlySymbol {
    pub name: String,
    pub keyword: String,
    pub file_uri: String,
    pub span: Span,
}

/// Whether an occurrence defines its symbol.
#[derive(Clone, Copy, Debug, PartialEq, Eq, Structural)]
pub enum Role {
    Definition,
    Reference,
}

/// The symbol at a cursor in an unsaved buffer.
#[derive(Debug, PartialEq, Eq)]
pub struct OverlayHit {
    pub semantic_symbol: String,
    pub span: Span,
    pub role: Role,
    /// The index cannot know the symbol.
    pub pc_only: bool,
}

/// Whether `char::is_alphanumeric` holds of a character.
pub uninterp spec fn alphanumeric(c: char) -> bool;

/// `char::is_alphanumeric`: whether a character is a letter or a digit of Unicode.
/// Which ones are, is named, not stated.
#[verifier::external_body]
fn is_alphanumeric(c: char) -> (r: bool)
    ensures
        r == alphanumeric(c),
{
    c.is_alphanumeric()
}

/// `char::from_u32`: the character with a code, unless the code is a surrogate or
/// too large.
#[verifier::external_body]
fn char_of(code: u32) -> (c: Option<char>)
    ensures
        c is Some <==> vstd::utf8::is_scalar(code),
        c matches Some(c) ==> c as u32 == code,
{
    char::from_u32(code)
}

/// The UTF-16 code units of one character.
pub open spec fn units_of(c: char) -> Seq<u16> {
    let code = c as u32;
    if code < 0x10000 {
        seq![code as u16]
    } else {
        seq![
            (0xd800 + (code - 0x10000) / 0x400) as u16,
            (0xdc00 + (code - 0x10000) % 0x400) as u16,
        ]
    }
}

/// The UTF-16 code units of a text.
pub open spec fn utf16(s: Seq<char>) -> Seq<u16>
    decreases s.len(),
{
    if s.len() == 0 {
        seq![]
    } else {
        utf16(s.drop_last()) + units_of(s.last())
    }
}

/// Whether a code unit is part of an identifier: `$`, `_`, or a letter or digit
/// that takes one unit.
pub open spec fn id_part(unit: u16) -> bool {
    unit == 36 || (vstd::utf8::is_scalar(unit as u32) && (alphanumeric(unit as char) || unit as char
        == '_'))
}

/// Whether a code unit is part of an identifier.
pub fn is_id_part(unit: u16) -> (r: bool)
    ensures
        r == id_part(unit),
{
    if unit == 36 {
        return true;
    }
    match char_of(unit as u32) {
        Some(c) => {
            proof {
                vstd::utf8::char_u32_cast(c, unit as u32);
                assert(unit as char == c);
            }
            is_alphanumeric(c) || c == '_'
        },
        None => false,
    }
}

/// The UTF-16 code units of a text.
pub fn utf16_units(s: &str) -> (units: Vec<u16>)
    ensures
        units@ == utf16(s@),
{
    let chars = text::chars_of(s);
    let mut units: Vec<u16> = Vec::new();
    let mut i: usize = 0;
    assert(s@.take(0) =~= seq![]);
    while i < chars.len()
        invariant
            i <= chars.len(),
            chars@ == s@,
            units@ == utf16(s@.take(i as int)),
        decreases chars.len() - i,
    {
        let ghost before = units@;
        let code = chars[i] as u32;
        if code < 0x10000 {
            units.push(code as u16);
            assert(units@ =~= before + units_of(chars@[i as int]));
        } else {
            let high: u16 = (0xd800 + (code - 0x10000) / 0x400) as u16;
            let low: u16 = (0xdc00 + (code - 0x10000) % 0x400) as u16;
            units.push(high);
            units.push(low);
            assert(units@ =~= before + units_of(chars@[i as int]));
        }
        i += 1;
        assert(s@.take(i as int).drop_last() =~= s@.take(i - 1));
    }
    assert(s@.take(i as int) =~= s@);
    units
}

/// The number of UTF-16 code units of a text.
pub fn utf16_len(s: &str) -> (n: usize)
    ensures
        n == text::utf16_len(s@),
{
    let units = utf16_units(s);
    proof {
        lemma_utf16_len(s@);
    }
    units.len()
}

/// The UTF-16 length is the number of code units.
pub proof fn lemma_utf16_len(s: Seq<char>)
    ensures
        utf16(s).len() == text::utf16_len(s),
    decreases s.len(),
{
    if s.len() > 0 {
        lemma_utf16_len(s.drop_last());
    }
}

/// Where the identifier parts in front of an index begin.
pub open spec fn id_start(units: Seq<u16>, at: int) -> int
    decreases at,
{
    if at <= 0 || !id_part(units[at - 1]) {
        at
    } else {
        id_start(units, at - 1)
    }
}

/// Where the identifier parts from an index on end.
pub open spec fn id_end(units: Seq<u16>, at: int) -> int
    decreases units.len() - at,
{
    if at >= units.len() || !id_part(units[at]) {
        at
    } else {
        id_end(units, at + 1)
    }
}

/// The identifier that touches a column of a line, as a span.
pub open spec fn token_span(line_text: Seq<char>, line: u32, character: u32) -> Option<Span> {
    let units = utf16(line_text);
    let at = if character < units.len() {
        character as int
    } else {
        units.len() as int
    };
    let start = id_start(units, at);
    let end = id_end(units, at);
    if end > start {
        Some(
            Span {
                start_line: line,
                start_char: start as u32,
                end_line: line,
                end_char: end as u32,
            },
        )
    } else {
        None
    }
}

/// The identifier at a position of a text. There is none on a line that the text
/// does not have.
pub open spec fn token_at(source: Seq<char>, line: u32, character: u32) -> Option<Span> {
    let list = lines::line_list(source);
    if line < list.len() {
        token_span(list[line as int], line, character)
    } else {
        None
    }
}

/// The identifier at a position of a text.
pub fn token_span_at(source: &str, line: u32, character: u32) -> (span: Option<Span>)
    ensures
        span == token_at(source@, line, character),
{
    let list = lines::text_lines(source);
    if line as usize >= list.len() {
        return None;
    }
    assert(lines::line_list(source@)[line as int] == list@[line as int]@);
    let units = utf16_units(list[line as usize].as_str());
    let n = units.len();
    let at: usize = if (character as usize) < n {
        character as usize
    } else {
        n
    };
    let mut start: usize = at;
    while start > 0 && is_id_part(units[start - 1])
        invariant
            start <= at <= units@.len(),
            id_start(units@, at as int) == id_start(units@, start as int),
        decreases start,
    {
        start -= 1;
    }
    let mut end: usize = at;
    while end < n && is_id_part(units[end])
        invariant
            n == units@.len(),
            at <= end <= n,
            id_end(units@, at as int) == id_end(units@, end as int),
        decreases n - end,
    {
        end += 1;
    }
    if end > start {
        Some(Span::new(line, start as u32, line, end as u32))
    } else {
        None
    }
}

/// A word that may stand in front of a declaration.
pub open spec fn is_modifier(word: Seq<char>) -> bool {
    word == "private"@ || word == "protected"@ || word == "final"@ || word == "sealed"@ || word
        == "abstract"@ || word == "case"@ || word == "open"@ || word == "implicit"@ || word
        == "lazy"@ || word == "override"@ || word == "inline"@ || word == "transparent"@
}

/// A word that begins a declaration.
pub open spec fn is_keyword(word: Seq<char>) -> bool {
    word == "object"@ || word == "class"@ || word == "trait"@ || word == "enum"@ || word == "def"@
        || word == "val"@ || word == "var"@ || word == "type"@
}

fn modifier(word: &str) -> (r: bool)
    ensures
        r == is_modifier(word@),
{
    text::same_text(word, "private") || text::same_text(word, "protected") || text::same_text(
        word,
        "final",
    ) || text::same_text(word, "sealed") || text::same_text(word, "abstract") || text::same_text(
        word,
        "case",
    ) || text::same_text(word, "open") || text::same_text(word, "implicit") || text::same_text(
        word,
        "lazy",
    ) || text::same_text(word, "override") || text::same_text(word, "inline") || text::same_text(
        word,
        "transparent",
    )
}

fn keyword(word: &str) -> (r: bool)
    ensures
        r == is_keyword(word@),
{
    text::same_text(word, "object") || text::same_text(word, "class") || text::same_text(
        word,
        "trait",
    ) || text::same_text(word, "enum") || text::same_text(word, "def") || text::same_text(
        word,
        "val",
    ) || text::same_text(word, "var") || text::same_text(word, "type")
}

/// Whether a character may begin an identifier of a declaration.
pub open spec fn name_start(c: char) -> bool {
    'a' <= c <= 'z' || 'A' <= c <= 'Z' || c == '_'
}

/// Whether a character may stand inside an identifier of a declaration.
pub open spec fn name_part(c: char) -> bool {
    name_start(c) || '0' <= c <= '9' || c == '$'
}

/// The index behind the name characters from `i` on.
pub open spec fn name_stop(s: Seq<char>, i: int) -> int
    decreases s.len() - i,
{
    if i < s.len() && name_part(s[i]) {
        name_stop(s, i + 1)
    } else {
        i
    }
}

/// The identifier at the beginning of a text.
pub open spec fn leading_name(s: Seq<char>) -> Option<Seq<char>> {
    if s.len() > 0 && name_start(s[0]) {
        Some(s.take(name_stop(s, 1)))
    } else {
        None
    }
}

proof fn lemma_name_stop(s: Seq<char>, i: int)
    requires
        0 <= i <= s.len(),
    ensures
        i <= name_stop(s, i) <= s.len(),
    decreases s.len() - i,
{
    if i < s.len() && name_part(s[i]) {
        lemma_name_stop(s, i + 1);
    }
}

/// The identifier at the beginning of a text.
pub fn take_identifier(s: &str) -> (name: Option<String>)
    ensures
        match name {
            Some(name) => leading_name(s@) == Some(name@),
            None => leading_name(s@) is None,
        },
{
    let chars = text::chars_of(s);
    if chars.len() == 0 {
        return None;
    }
    let c = chars[0];
    if !(('a' <= c && c <= 'z') || ('A' <= c && c <= 'Z') || c == '_') {
        return None;
    }
    let mut i: usize = 1;
    while i < chars.len() && (('a' <= chars[i] && chars[i] <= 'z') || ('A' <= chars[i] && chars[i]
        <= 'Z') || chars[i] == '_' || ('0' <= chars[i] && chars[i] <= '9') || chars[i] == '$')
        invariant
            1 <= i <= chars.len(),
            chars@ == s@,
            name_stop(s@, 1) == name_stop(s@, i as int),
        decreases chars.len() - i,
    {
        i += 1;
    }
    let name = vstd::slice::slice_subrange(chars.as_slice(), 0, i);
    assert(name@ =~= s@.take(i as int));
    Some(text::string_of(name))
}

/// The length of the first word of a text.
pub open spec fn word_end(s: Seq<char>) -> int
    decreases s.len(),
{
    if s.len() == 0 || text::whitespace(s[0]) {
        0
    } else {
        1 + word_end(s.drop_first())
    }
}

proof fn lemma_word_end(s: Seq<char>)
    ensures
        0 <= word_end(s) <= s.len(),
    decreases s.len(),
{
    if s.len() > 0 && !text::whitespace(s[0]) {
        lemma_word_end(s.drop_first());
    }
}

/// A declaration: its keyword, its name, and how much of the line begins with the
/// name.
pub struct DeclV {
    pub keyword: Seq<char>,
    pub name: Seq<char>,
    pub rest: nat,
}

/// The declaration at the beginning of a text: modifiers, a keyword and a name,
/// each followed by white space but the last.
pub open spec fn decl_of(s: Seq<char>) -> Option<DeclV>
    decreases s.len(),
{
    let word = s.take(word_end(s));
    let after = s.skip(word_end(s));
    let rest = text::trimmed_start(after);
    if rest.len() >= after.len() || after.len() > s.len() {
        None
    } else if is_keyword(word) {
        match leading_name(rest) {
            Some(name) => Some(DeclV { keyword: word, name, rest: rest.len() }),
            None => None,
        }
    } else if is_modifier(word) {
        decl_of(rest)
    } else {
        None
    }
}

/// A top-level declaration of a line: at its beginning, without white space in
/// front.
pub open spec fn line_decl(line_text: Seq<char>) -> Option<DeclV> {
    if line_text.len() > 0 && text::whitespace(line_text[0]) {
        None
    } else {
        decl_of(line_text)
    }
}

/// A top-level declaration. Its span covers the name.
#[derive(Debug, PartialEq, Eq)]
pub struct TopLevelDecl {
    pub name: String,
    pub keyword: String,
    pub span: Span,
}

/// The model of a top-level declaration.
pub struct TopLevelDeclV {
    pub name: Seq<char>,
    pub keyword: Seq<char>,
    pub span: Span,
}

impl View for TopLevelDecl {
    type V = TopLevelDeclV;

    open spec fn view(&self) -> TopLevelDeclV {
        TopLevelDeclV { name: self.name@, keyword: self.keyword@, span: self.span }
    }
}

/// The declaration of a line, in its place.
pub open spec fn placed_decl(line: u32, line_text: Seq<char>) -> Option<TopLevelDeclV> {
    match line_decl(line_text) {
        None => None,
        Some(decl) => {
            let start = text::utf16_len(line_text.take(line_text.len() - decl.rest));
            Some(
                TopLevelDeclV {
                    name: decl.name,
                    keyword: decl.keyword,
                    span: Span {
                        start_line: line,
                        start_char: start as u32,
                        end_line: line,
                        end_char: (start + text::utf16_len(decl.name)) as u32,
                    },
                },
            )
        },
    }
}

/// The declaration of a line.
pub fn top_level_decl(line: u32, line_text: &str) -> (decl: Option<TopLevelDecl>)
    ensures
        match decl {
            Some(decl) => placed_decl(line, line_text@) == Some(decl@),
            None => placed_decl(line, line_text@) is None,
        },
{
    let ghost s = line_text@;
    let chars = text::chars_of(line_text);
    if chars.len() > 0 && text::is_whitespace(chars[0]) {
        return None;
    }
    let mut from: usize = 0;
    assert(s.skip(0) =~= s);
    loop
        invariant
            from <= chars.len(),
            chars@ == s,
            s == line_text@,
            line_decl(s) == decl_of(s.skip(from as int)),
        decreases chars.len() - from,
    {
        let ghost rest = s.skip(from as int);
        proof {
            lemma_word_end(rest);
        }
        let mut end: usize = from;
        assert(s.skip(end as int) =~= rest);
        while end < chars.len() && !text::is_whitespace(chars[end])
            invariant
                from <= end <= chars.len(),
                chars@ == s,
                word_end(rest) == (end - from) + word_end(s.skip(end as int)),
            decreases chars.len() - end,
        {
            assert(s.skip(end as int).drop_first() =~= s.skip(end + 1));
            end += 1;
        }
        let word = text::string_of(vstd::slice::slice_subrange(chars.as_slice(), from, end));
        assert(word@ =~= rest.take(word_end(rest)));
        let ghost after = rest.skip(word_end(rest));
        assert(after =~= s.skip(end as int));
        let mut next: usize = end;
        while next < chars.len() && text::is_whitespace(chars[next])
            invariant
                end <= next <= chars.len(),
                chars@ == s,
                text::trimmed_start(s.skip(end as int)) == text::trimmed_start(
                    s.skip(next as int),
                ),
            decreases chars.len() - next,
        {
            assert(s.skip(next as int).drop_first() =~= s.skip(next + 1));
            next += 1;
        }
        assert(text::trimmed_start(after) == s.skip(next as int));
        if next == end {
            return None;
        }
        if keyword(word.as_str()) {
            let tail = text::string_of(
                vstd::slice::slice_subrange(chars.as_slice(), next, chars.len()),
            );
            assert(tail@ =~= s.skip(next as int));
            match take_identifier(tail.as_str()) {
                None => {
                    return None;
                },
                Some(name) => {
                    let head = text::string_of(
                        vstd::slice::slice_subrange(chars.as_slice(), 0, next),
                    );
                    assert(head@ =~= s.take(next as int));
                    let start: usize = utf16_len(head.as_str());
                    let count = text::chars_of(name.as_str()).len();
                    proof {
                        lemma_name_stop(s.skip(next as int), 1);
                    }
                    let whole = text::string_of(
                        vstd::slice::slice_subrange(chars.as_slice(), 0, next + count),
                    );
                    assert(whole@ =~= s.take(next as int) + name@);
                    let stop: usize = utf16_len(whole.as_str());
                    proof {
                        text::lemma_utf16_len_add(s.take(next as int), name@);
                    }
                    return Some(
                        TopLevelDecl {
                            name,
                            keyword: word,
                            span: Span::new(line, start as u32, line, stop as u32),
                        },
                    );
                },
            }
        }
        if !modifier(word.as_str()) {
            return None;
        }
        from = next;
    }
}

/// The declarations of a list of lines.
pub open spec fn decls_of(list: Seq<Seq<char>>) -> Seq<TopLevelDeclV>
    decreases list.len(),
{
    if list.len() == 0 {
        seq![]
    } else {
        let before = decls_of(list.drop_last());
        match placed_decl((list.len() - 1) as u32, list.last()) {
            Some(decl) => before.push(decl),
            None => before,
        }
    }
}

/// The models of a list of declarations.
pub open spec fn decl_views(decls: Seq<TopLevelDecl>) -> Seq<TopLevelDeclV> {
    decls.map_values(|d: TopLevelDecl| d@)
}

/// The top-level declarations of a text.
pub fn top_level_decls(source: &str) -> (decls: Vec<TopLevelDecl>)
    ensures
        decl_views(decls@) == decls_of(lines::line_list(source@)),
{
    let list = lines::text_lines(source);
    let ghost all = lines::line_list(source@);
    let mut decls: Vec<TopLevelDecl> = Vec::new();
    let mut i: usize = 0;
    assert(all.take(0) =~= seq![]);
    assert(decl_views(decls@) =~= seq![]);
    while i < list.len()
        invariant
            i <= list@.len(),
            all == text::texts(list@),
            decl_views(decls@) == decls_of(all.take(i as int)),
        decreases list.len() - i,
    {
        let ghost before = decls@;
        proof {
            assert(all.take(i + 1).drop_last() =~= all.take(i as int));
            assert(all[i as int] == list@[i as int]@);
        }
        match top_level_decl(i as u32, list[i].as_str()) {
            Some(decl) => {
                decls.push(decl);
                assert(decl_views(decls@) =~= decl_views(before).push(decl@));
            },
            None => {},
        }
        i += 1;
    }
    assert(all.take(i as int) =~= all);
    decls
}

/// A cursor on a declaration, its end included.
pub open spec fn covers(span: Span, line: u32, character: u32) -> bool {
    span.start_line == line && span.start_char <= character <= span.end_char
}

/// The first declaration under a cursor.
pub open spec fn decl_under(decls: Seq<TopLevelDeclV>, line: u32, character: u32) -> Option<
    TopLevelDeclV,
>
    decreases decls.len(),
{
    if decls.len() == 0 {
        None
    } else if covers(decls[0].span, line, character) {
        Some(decls[0])
    } else {
        decl_under(decls.drop_first(), line, character)
    }
}

/// The declaration under a cursor.
pub fn decl_at(source: &str, line: u32, character: u32) -> (decl: Option<TopLevelDecl>)
    ensures
        match decl {
            Some(decl) => decl_under(decls_of(lines::line_list(source@)), line, character) == Some(
                decl@,
            ),
            None => decl_under(decls_of(lines::line_list(source@)), line, character) is None,
        },
{
    let decls = top_level_decls(source);
    let ghost all = decl_views(decls@);
    let mut i: usize = 0;
    assert(all.skip(0) =~= all);
    while i < decls.len()
        invariant
            i <= decls@.len(),
            all == decl_views(decls@),
            all == decls_of(lines::line_list(source@)),
            decl_under(all, line, character) == decl_under(all.skip(i as int), line, character),
        decreases decls.len() - i,
    {
        let decl = &decls[i];
        assert(all.skip(i as int)[0] == decl@);
        if decl.span.start_line == line && decl.span.start_char <= character && character
            <= decl.span.end_char {
            return Some(
                TopLevelDecl {
                    name: decl.name.clone(),
                    keyword: decl.keyword.clone(),
                    span: decl.span,
                },
            );
        }
        assert(all.skip(i as int).drop_first() =~= all.skip(i + 1));
        i += 1;
    }
    None
}

/// The model of a symbol at a cursor.
pub struct OverlayHitV {
    pub semantic_symbol: Seq<char>,
    pub span: Span,
    pub role: Role,
    pub pc_only: bool,
}

impl View for OverlayHit {
    type V = OverlayHitV;

    open spec fn view(&self) -> OverlayHitV {
        OverlayHitV {
            semantic_symbol: self.semantic_symbol@,
            span: self.span,
            role: self.role,
            pc_only: self.pc_only,
        }
    }
}

/// The index may answer `answer` when it is asked for a name.
pub open spec fn answers<F: Fn(&str) -> bool>(
    is_indexed_name: F,
    name: Seq<char>,
    answer: bool,
) -> bool {
    exists|key: &str| #[trigger] is_indexed_name.ensures((key,), answer) && key@ == name
}

/// The symbol of a declaration under the cursor that the index has not seen. Its
/// symbol is never read: the symbol is known to the buffer alone.
pub open spec fn unseen_hit(decl: TopLevelDeclV) -> OverlayHitV {
    OverlayHitV {
        semantic_symbol: "local/"@ + decl.name + "#"@,
        span: decl.span,
        role: Role::Definition,
        pc_only: true,
    }
}

/// The symbol at a cursor where it stands on a top-level declaration of the buffer
/// that the index has not seen.
pub fn pc_only_top_level_hit<F: Fn(&str) -> bool>(
    source: &str,
    line: u32,
    character: u32,
    is_indexed_name: &F,
) -> (hit: Option<OverlayHit>)
    requires
        forall|name: &str| is_indexed_name.requires((name,)),
    ensures
        match decl_under(decls_of(lines::line_list(source@)), line, character) {
            None => hit is None,
            Some(decl) => match hit {
                Some(hit) => answers(*is_indexed_name, decl.name, false) && hit@ == unseen_hit(decl),
                None => answers(*is_indexed_name, decl.name, true),
            },
        },
{
    match decl_at(source, line, character) {
        None => None,
        Some(decl) => {
            let indexed = is_indexed_name(decl.name.as_str());
            assert(answers(*is_indexed_name, decl@.name, indexed));
            if indexed {
                return None;
            }
            let mut symbol = "local/".to_owned();
            text::push_text(&mut symbol, decl.name.as_str());
            text::push_text(&mut symbol, "#");
            Some(
                OverlayHit {
                    semantic_symbol: symbol,
                    span: decl.span,
                    role: Role::Definition,
                    pc_only: true,
                },
            )
        },
    }
}

/// The span of a compiler span.
pub open spec fn span_of(span: PcSpan) -> Span {
    Span {
        start_line: span.start_line,
        start_char: span.start_character,
        end_line: span.end_line,
        end_char: span.end_character,
    }
}

fn span_of_pc(span: &PcSpan) -> (s: Span)
    ensures
        s == span_of(*span),
{
    Span::new(span.start_line, span.start_character, span.end_line, span.end_character)
}

/// A location in the workspace, in the given file, with the given span.
pub open spec fn is_here(location: PcDefLocation, file_uri: Seq<char>, span: Span) -> bool {
    &&& location.origin == PcDefOrigin::Workspace
    &&& location.uri@ == file_uri
    &&& span_of(location.span) == span
}

/// The symbol at a cursor, of the span that it covers and its definitions: none
/// without a span or a symbol. It is a definition where it is defined right there,
/// and unknown to the index where it is defined outside of the workspace alone.
pub open spec fn resolved_hit(
    span: Option<Span>,
    defs: PcDefinition,
    file_uri: Seq<char>,
) -> Option<OverlayHitV> {
    if span is None || defs.symbol@.len() == 0 {
        None
    } else {
        Some(
            OverlayHitV {
                semantic_symbol: defs.symbol@,
                span: span->0,
                role: if exists|i: int|
                    0 <= i < defs.locations@.len() && is_here(
                        #[trigger] defs.locations@[i],
                        file_uri,
                        span->0,
                    ) {
                    Role::Definition
                } else {
                    Role::Reference
                },
                pc_only: defs.locations@.len() > 0 && forall|i: int|
                    0 <= i < defs.locations@.len() ==> (#[trigger] defs.locations@[i]).origin
                        != PcDefOrigin::Workspace,
            },
        )
    }
}

/// The symbol at a cursor as the presentation compiler resolves it. Its span is the
/// one that the compiler offers for a rename, or else the identifier in the buffer.
pub fn pc_hit(
    source: Option<&str>,
    file_uri: &str,
    line: u32,
    character: u32,
    prepared: Option<PcSpan>,
    defs: &PcDefinition,
) -> (hit: Option<OverlayHit>)
    ensures
        ({
            let span = match prepared {
                Some(span) => Some(span_of(span)),
                None => match source {
                    Some(source) => token_at(source@, line, character),
                    None => None,
                },
            };
            match hit {
                Some(hit) => resolved_hit(span, *defs, file_uri@) == Some(hit@),
                None => resolved_hit(span, *defs, file_uri@) is None,
            }
        }),
{
    let found: Option<Span> = match prepared {
        Some(span) => Some(span_of_pc(&span)),
        None => match source {
            Some(source) => token_span_at(source, line, character),
            None => None,
        },
    };
    let span = match found {
        Some(span) => span,
        None => {
            return None;
        },
    };
    if text::chars_of(defs.symbol.as_str()).len() == 0 {
        return None;
    }
    let mut here = false;
    let mut outside = defs.locations.len() > 0;
    let mut i: usize = 0;
    while i < defs.locations.len()
        invariant
            i <= defs.locations@.len(),
            here == exists|j: int|
                0 <= j < i && is_here(#[trigger] defs.locations@[j], file_uri@, span),
            outside == (defs.locations@.len() > 0 && forall|j: int|
                0 <= j < i ==> (#[trigger] defs.locations@[j]).origin != PcDefOrigin::Workspace),
        decreases defs.locations.len() - i,
    {
        let location = &defs.locations[i];
        if location.origin == PcDefOrigin::Workspace {
            outside = false;
            let there = span_of_pc(&location.span);
            if there == span && text::same_text(location.uri.as_str(), file_uri) {
                here = true;
                assert(is_here(defs.locations@[i as int], file_uri@, span));
            }
        }
        i += 1;
    }
    Some(
        OverlayHit {
            semantic_symbol: defs.symbol.clone(),
            span,
            role: if here {
                Role::Definition
            } else {
                Role::Reference
            },
            pc_only: outside,
        },
    )
}

/// What `str::to_lowercase` makes of a text.
pub uninterp spec fn lowercase(s: Seq<char>) -> Seq<char>;

/// `str::to_lowercase`: the lower case of a text. What it is, is named, not stated.
#[verifier::external_body]
fn to_lower(s: &str) -> (lower: String)
    ensures
        lower@ == lowercase(s@),
{
    s.to_lowercase()
}

/// Whether a text holds another from an index on.
pub open spec fn holds_at(s: Seq<char>, part: Seq<char>, i: int) -> bool {
    0 <= i && i + part.len() <= s.len() && s.subrange(i, i + part.len()) == part
}

/// Whether a text holds another.
pub open spec fn holds(s: Seq<char>, part: Seq<char>) -> bool {
    exists|i: int| #[trigger] holds_at(s, part, i)
}

fn has_at(s: &Vec<char>, part: &Vec<char>, at: usize) -> (r: bool)
    requires
        at + part@.len() <= s@.len(),
    ensures
        r == holds_at(s@, part@, at as int),
{
    let mut i: usize = 0;
    while i < part.len()
        invariant
            i <= part@.len(),
            at + part.len() <= s.len(),
            forall|j: int| 0 <= j < i ==> s@[at + j] == part@[j],
        decreases part.len() - i,
    {
        if s[at + i] != part[i] {
            assert(s@.subrange(at as int, at + part@.len())[i as int] != part@[i as int]);
            return false;
        }
        i += 1;
    }
    assert(s@.subrange(at as int, at + part@.len()) =~= part@);
    true
}

/// Whether a text holds another.
pub fn has(s: &str, part: &str) -> (r: bool)
    ensures
        r == holds(s@, part@),
{
    let chars = text::chars_of(s);
    let wanted = text::chars_of(part);
    if wanted.len() > chars.len() {
        return false;
    }
    let last = chars.len() - wanted.len();
    let mut i: usize = 0;
    loop
        invariant
            i <= last,
            chars@ == s@,
            wanted@ == part@,
            last + wanted.len() == chars.len(),
            forall|j: int| 0 <= j < i ==> !holds_at(s@, part@, j),
        decreases last - i,
    {
        if has_at(&chars, &wanted, i) {
            return true;
        }
        if i == last {
            assert forall|j: int| !holds_at(s@, part@, j) by {}
            return false;
        }
        i += 1;
    }
}

/// A symbol of a file.
pub struct SymbolV {
    pub file_uri: Seq<char>,
    pub decl: TopLevelDeclV,
}

/// The models of a list of symbols.
pub open spec fn symbol_views(symbols: Seq<PcOnlySymbol>) -> Seq<SymbolV> {
    symbols.map_values(
        |s: PcOnlySymbol|
            SymbolV {
                file_uri: s.file_uri@,
                decl: TopLevelDeclV { name: s.name@, keyword: s.keyword@, span: s.span },
            },
    )
}

/// Whether a name matches a query: any name matches the empty one.
pub open spec fn matches_query(name: Seq<char>, query: Seq<char>) -> bool {
    lowercase(query).len() == 0 || holds(lowercase(name), lowercase(query))
}

/// The declarations of a file that match a query.
pub open spec fn matching(
    file_uri: Seq<char>,
    decls: Seq<TopLevelDeclV>,
    query: Seq<char>,
) -> Seq<SymbolV>
    decreases decls.len(),
{
    if decls.len() == 0 {
        seq![]
    } else {
        let before = matching(file_uri, decls.drop_last(), query);
        if matches_query(decls.last().name, query) {
            before.push(SymbolV { file_uri, decl: decls.last() })
        } else {
            before
        }
    }
}

/// The declarations of a list of buffers that match a query.
pub open spec fn candidates(buffers: Seq<(Seq<char>, Seq<char>)>, query: Seq<char>) -> Seq<SymbolV>
    decreases buffers.len(),
{
    if buffers.len() == 0 {
        seq![]
    } else {
        candidates(buffers.drop_last(), query) + matching(
            buffers.last().0,
            decls_of(lines::line_list(buffers.last().1)),
            query,
        )
    }
}

/// The URIs and texts of a list of buffers.
pub open spec fn buffer_views(buffers: Seq<(String, String)>) -> Seq<(Seq<char>, Seq<char>)> {
    Seq::new(buffers.len(), |i: int| (buffers[i].0@, buffers[i].1@))
}

/// The symbols for which the index answered that it does not have them.
pub open spec fn unseen(symbols: Seq<SymbolV>, indexed: Seq<bool>) -> Seq<SymbolV>
    decreases symbols.len(),
{
    if symbols.len() == 0 {
        seq![]
    } else {
        let before = unseen(symbols.drop_last(), indexed.drop_last());
        if indexed.last() {
            before
        } else {
            before.push(symbols.last())
        }
    }
}

/// The index may answer `indexed` when it is asked for the names of the symbols.
pub open spec fn all_answered<F: Fn(&str) -> bool>(
    is_indexed_name: F,
    symbols: Seq<SymbolV>,
    indexed: Seq<bool>,
) -> bool {
    &&& indexed.len() == symbols.len()
    &&& forall|i: int|
        0 <= i < symbols.len() ==> answers(
            is_indexed_name,
            (#[trigger] symbols[i]).decl.name,
            indexed[i],
        )
}

/// `symbols` may be the symbols of the buffers that match a query and that the index
/// has not seen.
pub open spec fn are_unseen<F: Fn(&str) -> bool>(
    is_indexed_name: F,
    buffers: Seq<(Seq<char>, Seq<char>)>,
    query: Seq<char>,
    symbols: Seq<SymbolV>,
) -> bool {
    exists|indexed: Seq<bool>| #[trigger]
        all_answered(is_indexed_name, candidates(buffers, query), indexed) && symbols == unseen(
            candidates(buffers, query),
            indexed,
        )
}

fn matching_symbols(file_uri: &str, source: &str, query: &str) -> (found: Vec<PcOnlySymbol>)
    ensures
        symbol_views(found@) == matching(
            file_uri@,
            decls_of(lines::line_list(source@)),
            query@,
        ),
{
    let decls = top_level_decls(source);
    let ghost all = decl_views(decls@);
    let wanted = to_lower(query);
    let any = text::chars_of(wanted.as_str()).len() == 0;
    let mut found: Vec<PcOnlySymbol> = Vec::new();
    let mut i: usize = 0;
    assert(all.take(0) =~= seq![]);
    assert(symbol_views(found@) =~= seq![]);
    while i < decls.len()
        invariant
            i <= decls@.len(),
            all == decl_views(decls@),
            wanted@ == lowercase(query@),
            any == (wanted@.len() == 0),
            symbol_views(found@) == matching(file_uri@, all.take(i as int), query@),
        decreases decls.len() - i,
    {
        let decl = &decls[i];
        let ghost before = found@;
        proof {
            assert(all.take(i + 1).drop_last() =~= all.take(i as int));
            assert(all[i as int] == decl@);
        }
        if any || has(to_lower(decl.name.as_str()).as_str(), wanted.as_str()) {
            found.push(
                PcOnlySymbol {
                    name: decl.name.clone(),
                    keyword: decl.keyword.clone(),
                    file_uri: file_uri.to_owned(),
                    span: decl.span,
                },
            );
            assert(symbol_views(found@) =~= symbol_views(before).push(
                SymbolV { file_uri: file_uri@, decl: decl@ },
            ));
        }
        i += 1;
    }
    assert(all.take(i as int) =~= all);
    found
}

/// The top-level symbols of unsaved buffers that match a query and that the index
/// has not seen.
pub fn pc_only_symbols<F: Fn(&str) -> bool>(
    buffers: &Vec<(String, String)>,
    query: &str,
    is_indexed_name: &F,
) -> (symbols: Vec<PcOnlySymbol>)
    requires
        forall|name: &str| is_indexed_name.requires((name,)),
    ensures
        are_unseen(*is_indexed_name, buffer_views(buffers@), query@, symbol_views(symbols@)),
{
    let ghost views = buffer_views(buffers@);
    let mut found: Vec<PcOnlySymbol> = Vec::new();
    let mut b: usize = 0;
    assert(views.take(0) =~= seq![]);
    assert(symbol_views(found@) =~= seq![]);
    while b < buffers.len()
        invariant
            b <= buffers@.len(),
            views == buffer_views(buffers@),
            symbol_views(found@) == candidates(views.take(b as int), query@),
        decreases buffers.len() - b,
    {
        let ghost before = found@;
        let mut more = matching_symbols(buffers[b].0.as_str(), buffers[b].1.as_str(), query);
        let ghost added = more@;
        found.append(&mut more);
        proof {
            assert(views.take(b + 1).drop_last() =~= views.take(b as int));
            assert(symbol_views(found@) =~= symbol_views(before) + symbol_views(added));
        }
        b += 1;
    }
    assert(views.take(b as int) =~= views);
    let ghost all = candidates(views, query@);
    let ghost mut indexed: Seq<bool> = seq![];
    let mut symbols: Vec<PcOnlySymbol> = Vec::new();
    let mut i: usize = 0;
    assert(all.take(0) =~= seq![]);
    assert(symbol_views(symbols@) =~= seq![]);
    while i < found.len()
        invariant
            i <= found@.len(),
            forall|name: &str| is_indexed_name.requires((name,)),
            all == symbol_views(found@),
            all_answered(*is_indexed_name, all.take(i as int), indexed),
            symbol_views(symbols@) == unseen(all.take(i as int), indexed),
        decreases found.len() - i,
    {
        let symbol = &found[i];
        let known = is_indexed_name(symbol.name.as_str());
        let ghost before = symbols@;
        proof {
            assert(answers(*is_indexed_name, all[i as int].decl.name, known));
            let longer = indexed.push(known);
            let part = all.take(i + 1);
            assert(part.drop_last() =~= all.take(i as int));
            assert(longer.drop_last() =~= indexed);
            assert forall|j: int| 0 <= j < part.len() implies answers(
                *is_indexed_name,
                (#[trigger] part[j]).decl.name,
                longer[j],
            ) by {
                if j < i {
                    assert(part[j] == all.take(i as int)[j]);
                    assert(longer[j] == indexed[j]);
                }
            }
            indexed = longer;
        }
        if !known {
            symbols.push(
                PcOnlySymbol {
                    name: symbol.name.clone(),
                    keyword: symbol.keyword.clone(),
                    file_uri: symbol.file_uri.clone(),
                    span: symbol.span,
                },
            );
            assert(symbol_views(symbols@) =~= symbol_views(before).push(all[i as int]));
        }
        i += 1;
    }
    assert(all.take(i as int) =~= all);
    symbols
}

/// What an optional string holds.
pub open spec fn optional_text(value: Option<String>) -> Option<Seq<char>> {
    match value {
        Some(s) => Some(s@),
        None => None,
    }
}

/// A lookup may find `found` for a URI.
pub open spec fn reads<D: Fn(&str) -> Option<String>>(
    lookup: D,
    uri: Seq<char>,
    found: Option<Seq<char>>,
) -> bool {
    exists|key: &str, answer: Option<String>| #[trigger]
        lookup.ensures((key,), answer) && key@ == uri && found == optional_text(answer)
}

/// The disk may hold `disk` for a list of URIs.
pub open spec fn all_read<D: Fn(&str) -> Option<String>>(
    disk_text: D,
    uris: Seq<Seq<char>>,
    disk: Seq<Option<Seq<char>>>,
) -> bool {
    &&& disk.len() == uris.len()
    &&& forall|i: int| 0 <= i < uris.len() ==> reads(disk_text, #[trigger] uris[i], disk[i])
}

/// The buffers among the given URIs whose text is not the one on disk.
pub open spec fn dirty_of(
    docs: Map<Seq<char>, (Seq<char>, i64)>,
    uris: Seq<Seq<char>>,
    disk: Seq<Option<Seq<char>>>,
) -> Seq<(Seq<char>, Seq<char>)>
    decreases uris.len(),
{
    if uris.len() == 0 {
        seq![]
    } else {
        let before = dirty_of(docs, uris.drop_last(), disk.drop_last());
        let text = docs[uris.last()].0;
        if disk.last() == Some(text) {
            before
        } else {
            before.push((uris.last(), text))
        }
    }
}

/// `buffers` may be the open buffers whose text is not the one on disk, in URI order.
pub open spec fn are_dirty<D: Fn(&str) -> Option<String>>(
    docs: Map<Seq<char>, (Seq<char>, i64)>,
    disk_text: D,
    buffers: Seq<(Seq<char>, Seq<char>)>,
) -> bool {
    exists|uris: Seq<Seq<char>>, disk: Seq<Option<Seq<char>>>|
        order::strictly_sorted(uris) && uris.to_set() == docs.dom() && #[trigger] all_read(
            disk_text,
            uris,
            disk,
        ) && buffers == dirty_of(docs, uris, disk)
}

/// The open buffers whose text is not the one on disk, in URI order.
pub fn dirty_buffers<D: Fn(&str) -> Option<String>>(docs: &DocumentStore, disk_text: &D) -> (
    buffers: Vec<(String, String)>)
    requires
        forall|uri: &str| disk_text.requires((uri,)),
    ensures
        are_dirty(docs@, *disk_text, buffer_views(buffers@)),
{
    let keys = docs.open_uris();
    let ghost uris = text::texts(keys@);
    let ghost mut disk: Seq<Option<Seq<char>>> = seq![];
    let mut buffers: Vec<(String, String)> = Vec::new();
    let mut i: usize = 0;
    assert(uris.take(0) =~= seq![]);
    assert(buffer_views(buffers@) =~= seq![]);
    while i < keys.len()
        invariant
            i <= keys@.len(),
            forall|uri: &str| disk_text.requires((uri,)),
            uris == text::texts(keys@),
            uris.to_set() == docs@.dom(),
            all_read(*disk_text, uris.take(i as int), disk),
            buffer_views(buffers@) == dirty_of(docs@, uris.take(i as int), disk),
        decreases keys.len() - i,
    {
        let uri = keys[i].as_str();
        let saved = disk_text(uri);
        let ghost found = optional_text(saved);
        let ghost before = buffer_views(buffers@);
        proof {
            assert(uris[i as int] == uri@);
            assert(uris.contains(uris[i as int]));
            assert(docs@.dom().contains(uri@));
            assert(reads(*disk_text, uri@, found));
            let longer = disk.push(found);
            let part = uris.take(i + 1);
            assert(part.drop_last() =~= uris.take(i as int));
            assert(longer.drop_last() =~= disk);
            assert forall|j: int| 0 <= j < part.len() implies reads(
                *disk_text,
                #[trigger] part[j],
                longer[j],
            ) by {
                if j < i {
                    assert(part[j] == uris.take(i as int)[j]);
                    assert(longer[j] == disk[j]);
                }
            }
            disk = longer;
        }
        let dirty = docs.is_dirty(
            uri,
            match &saved {
                Some(s) => Some(s.as_str()),
                None => None,
            },
        );
        if dirty {
            match docs.text(uri) {
                Some(current) => {
                    let ghost now = current@;
                    buffers.push((keys[i].clone(), current));
                    assert(buffer_views(buffers@) =~= before.push((uri@, now)));
                },
                None => {},
            }
        }
        i += 1;
    }
    assert(uris.take(i as int) =~= uris);
    buffers
}

/// What the overlay is given once the workspace is ready: the file URI that a URI of
/// the index names, and whether the index has a name.
pub struct OverlayEnv<U, N> {
    pub to_file_uri: U,
    pub is_indexed_name: N,
}

impl<U: Fn(&str) -> Option<String>, N: Fn(&str) -> bool> OverlayEnv<U, N> {
    /// It answers for every URI and every name.
    pub open spec fn answers_all(self) -> bool {
        &&& forall|uri: &str| self.to_file_uri.requires((uri,))
        &&& forall|name: &str| self.is_indexed_name.requires((name,))
    }
}

/// `open` may be whether the compiler holds a buffer.
pub open spec fn holds_buffer<P: PcQueryService>(pc: &P, uri: Seq<char>, open: bool) -> bool {
    exists|key: &str| #[trigger] call_ensures(P::is_open, (pc, key), open) && key@ == uri
}

/// `span` may be what the compiler offers for a rename at a cursor.
pub open spec fn offers<P: PcQueryService>(
    pc: &P,
    uri: Seq<char>,
    line: u32,
    character: u32,
    span: Option<PcSpan>,
) -> bool {
    exists|key: &str| #[trigger]
        call_ensures(P::prepare_rename, (pc, key, line, character), span) && key@ == uri
}

/// `defs` may be the definition that the compiler finds at a cursor.
pub open spec fn defines<P: PcQueryService>(
    pc: &P,
    uri: Seq<char>,
    line: u32,
    character: u32,
    defs: PcDefinition,
) -> bool {
    exists|key: &str| #[trigger]
        call_ensures(P::definition_result, (pc, key, line, character), defs) && key@ == uri
}

/// The text of a document, if it is open.
pub open spec fn open_text(docs: Map<Seq<char>, (Seq<char>, i64)>, uri: Seq<char>) -> Option<
    Seq<char>,
> {
    if docs.contains_key(uri) {
        Some(docs[uri].0)
    } else {
        None
    }
}

/// The top-level declaration under a cursor in a text.
pub open spec fn declared_at(source: Option<Seq<char>>, line: u32, character: u32) -> Option<
    TopLevelDeclV,
> {
    match source {
        Some(source) => decl_under(decls_of(lines::line_list(source)), line, character),
        None => None,
    }
}

/// The span at a cursor: the one that the compiler offers for a rename, or else the
/// identifier in the text.
pub open spec fn cursor_span(
    source: Option<Seq<char>>,
    line: u32,
    character: u32,
    prepared: Option<PcSpan>,
) -> Option<Span> {
    match prepared {
        Some(span) => Some(span_of(span)),
        None => match source {
            Some(source) => token_at(source, line, character),
            None => None,
        },
    }
}

/// `hit` may be what the compiler makes of a cursor: nothing where there is no span,
/// and else what its definition says.
pub open spec fn may_resolve<P: PcQueryService>(
    pc: &P,
    source: Option<Seq<char>>,
    uri: Seq<char>,
    line: u32,
    character: u32,
    prepared: Option<PcSpan>,
    hit: Option<OverlayHitV>,
) -> bool {
    let span = cursor_span(source, line, character, prepared);
    if span is None {
        hit is None
    } else {
        exists|defs: PcDefinition| #[trigger]
            defines(pc, uri, line, character, defs) && hit == resolved_hit(span, defs, uri)
    }
}

/// `hit` may be what the compiler makes of a cursor, whatever it offers for a rename.
pub open spec fn may_answer<P: PcQueryService>(
    pc: &P,
    source: Option<Seq<char>>,
    uri: Seq<char>,
    line: u32,
    character: u32,
    hit: Option<OverlayHitV>,
) -> bool {
    exists|prepared: Option<PcSpan>| #[trigger]
        offers(pc, uri, line, character, prepared) && may_resolve(
            pc,
            source,
            uri,
            line,
            character,
            prepared,
            hit,
        )
}

/// `hit` may be the symbol at a cursor in a buffer that the compiler holds: the
/// declaration there, where the index has not seen its name, and else what the
/// compiler makes of it.
pub open spec fn may_hit<P: PcQueryService, N: Fn(&str) -> bool>(
    pc: &P,
    is_indexed_name: N,
    source: Option<Seq<char>>,
    uri: Seq<char>,
    line: u32,
    character: u32,
    hit: Option<OverlayHitV>,
) -> bool {
    match declared_at(source, line, character) {
        None => may_answer(pc, source, uri, line, character, hit),
        Some(decl) => {
            ||| answers(is_indexed_name, decl.name, false) && hit == Some(unseen_hit(decl))
            ||| answers(is_indexed_name, decl.name, true) && may_answer(
                pc,
                source,
                uri,
                line,
                character,
                hit,
            )
        },
    }
}

/// `hit` may be the symbol at a cursor in a file: nothing where the compiler does not
/// hold its buffer.
pub open spec fn may_hit_in<P: PcQueryService, N: Fn(&str) -> bool>(
    docs: Map<Seq<char>, (Seq<char>, i64)>,
    pc: &P,
    is_indexed_name: N,
    uri: Seq<char>,
    line: u32,
    character: u32,
    hit: Option<OverlayHitV>,
) -> bool {
    exists|open: bool| #[trigger]
        holds_buffer(pc, uri, open) && if open {
            may_hit(pc, is_indexed_name, open_text(docs, uri), uri, line, character, hit)
        } else {
            hit is None
        }
}

/// `dirty` may be whether a file is open with a text that is not the one on disk.
pub open spec fn may_be_dirty<D: Fn(&str) -> Option<String>>(
    docs: Map<Seq<char>, (Seq<char>, i64)>,
    disk_text: D,
    uri: Seq<char>,
    dirty: bool,
) -> bool {
    exists|disk: Option<Seq<char>>| #[trigger]
        reads(disk_text, uri, disk) && dirty == (docs.contains_key(uri) && disk != Some(
            docs[uri].0,
        ))
}

/// What an optional symbol is.
pub open spec fn hit_view(hit: Option<OverlayHit>) -> Option<OverlayHitV> {
    match hit {
        Some(hit) => Some(hit@),
        None => None,
    }
}

/// The overlay of unsaved buffers over the index. URIs come as the index has them.
/// Nothing is dirty until the overlay is installed.
pub struct PcOverlayInner<U, N> {
    pub env: Option<OverlayEnv<U, N>>,
}

impl<U: Fn(&str) -> Option<String>, N: Fn(&str) -> bool> PcOverlayInner<U, N> {
    /// What the overlay was given answers for everything.
    pub open spec fn answers_all(self) -> bool {
        self.env matches Some(env) ==> env.answers_all()
    }

    /// `dirty` may be whether the buffer of a URI is dirty.
    pub open spec fn may_say_dirty<D: Fn(&str) -> Option<String>>(
        self,
        docs: Map<Seq<char>, (Seq<char>, i64)>,
        disk_text: D,
        sdb_uri: Seq<char>,
        dirty: bool,
    ) -> bool {
        match self.env {
            None => !dirty,
            Some(env) => exists|file: Option<Seq<char>>| #[trigger]
                reads(env.to_file_uri, sdb_uri, file) && match file {
                    None => !dirty,
                    Some(uri) => may_be_dirty(docs, disk_text, uri, dirty),
                },
        }
    }

    /// `hit` may be the symbol at a cursor.
    pub open spec fn may_say<P: PcQueryService>(
        self,
        docs: Map<Seq<char>, (Seq<char>, i64)>,
        pc: &P,
        sdb_uri: Seq<char>,
        line: u32,
        character: u32,
        hit: Option<OverlayHitV>,
    ) -> bool {
        match self.env {
            None => hit is None,
            Some(env) => exists|file: Option<Seq<char>>| #[trigger]
                reads(env.to_file_uri, sdb_uri, file) && match file {
                    None => hit is None,
                    Some(uri) => may_hit_in(
                        docs,
                        pc,
                        env.is_indexed_name,
                        uri,
                        line,
                        character,
                        hit,
                    ),
                },
        }
    }

    /// `symbols` may be the symbols of unsaved buffers that match a query.
    pub open spec fn may_list<D: Fn(&str) -> Option<String>>(
        self,
        docs: Map<Seq<char>, (Seq<char>, i64)>,
        disk_text: D,
        query: Seq<char>,
        symbols: Seq<SymbolV>,
    ) -> bool {
        match self.env {
            None => symbols.len() == 0,
            Some(env) => exists|buffers: Seq<(Seq<char>, Seq<char>)>| #[trigger]
                are_dirty(docs, disk_text, buffers) && are_unseen(
                    env.is_indexed_name,
                    buffers,
                    query,
                    symbols,
                ),
        }
    }

    /// Gives the overlay what it needs, in place of what it had.
    pub fn install(&mut self, to_file_uri: U, is_indexed_name: N)
        ensures
            final(self).env == Some(OverlayEnv { to_file_uri, is_indexed_name }),
    {
        self.env = Some(OverlayEnv { to_file_uri, is_indexed_name });
    }

    /// Whether the overlay was given what it needs.
    pub fn is_installed(&self) -> (installed: bool)
        ensures
            installed == self.env is Some,
    {
        self.env.is_some()
    }

    /// Whether the buffer of a URI is open and its text is not the one on disk.
    pub fn is_dirty<D: Fn(&str) -> Option<String>>(
        &self,
        docs: &DocumentStore,
        disk_text: &D,
        sdb_uri: &str,
    ) -> (dirty: bool)
        requires
            self.answers_all(),
            forall|uri: &str| disk_text.requires((uri,)),
        ensures
            self.may_say_dirty(docs@, *disk_text, sdb_uri@, dirty),
    {
        match &self.env {
            None => false,
            Some(env) => {
                let file = (env.to_file_uri)(sdb_uri);
                let ghost named = optional_text(file);
                assert(reads(env.to_file_uri, sdb_uri@, named));
                match file {
                    None => false,
                    Some(file_uri) => {
                        let uri = file_uri.as_str();
                        let disk = disk_text(uri);
                        assert(reads(*disk_text, uri@, optional_text(disk)));
                        docs.is_dirty(
                            uri,
                            match &disk {
                                Some(s) => Some(s.as_str()),
                                None => None,
                            },
                        )
                    },
                }
            },
        }
    }

    /// The symbol at a cursor in an unsaved buffer.
    pub fn symbol_at<P: PcQueryService>(
        &self,
        docs: &DocumentStore,
        pc: &P,
        sdb_uri: &str,
        line: u32,
        character: u32,
    ) -> (hit: Option<OverlayHit>)
        requires
            self.answers_all(),
        ensures
            self.may_say(docs@, pc, sdb_uri@, line, character, hit_view(hit)),
    {
        match &self.env {
            None => None,
            Some(env) => {
                let file = (env.to_file_uri)(sdb_uri);
                let ghost named = optional_text(file);
                assert(reads(env.to_file_uri, sdb_uri@, named));
                match file {
                    None => None,
                    Some(file_uri) => symbol_in(
                        docs,
                        pc,
                        &env.is_indexed_name,
                        file_uri.as_str(),
                        line,
                        character,
                    ),
                }
            },
        }
    }

    /// The top-level symbols of unsaved buffers that match a query and that the index
    /// has not seen.
    pub fn pc_only_symbols<D: Fn(&str) -> Option<String>>(
        &self,
        docs: &DocumentStore,
        disk_text: &D,
        query: &str,
    ) -> (symbols: Vec<PcOnlySymbol>)
        requires
            self.answers_all(),
            forall|uri: &str| disk_text.requires((uri,)),
        ensures
            self.may_list(docs@, *disk_text, query@, symbol_views(symbols@)),
    {
        match &self.env {
            None => Vec::new(),
            Some(env) => {
                let buffers = dirty_buffers(docs, disk_text);
                pc_only_symbols(&buffers, query, &env.is_indexed_name)
            },
        }
    }
}

fn symbol_in<P: PcQueryService, N: Fn(&str) -> bool>(
    docs: &DocumentStore,
    pc: &P,
    is_indexed_name: &N,
    file_uri: &str,
    line: u32,
    character: u32,
) -> (hit: Option<OverlayHit>)
    requires
        forall|name: &str| is_indexed_name.requires((name,)),
    ensures
        may_hit_in(docs@, pc, *is_indexed_name, file_uri@, line, character, hit_view(hit)),
{
    let open = pc.is_open(file_uri);
    assert(holds_buffer(pc, file_uri@, open));
    if !open {
        return None;
    }
    let text = docs.text(file_uri);
    let ghost source = open_text(docs@, file_uri@);
    match &text {
        Some(text) => {
            let hit = pc_only_top_level_hit(text.as_str(), line, character, is_indexed_name);
            if hit.is_some() {
                return hit;
            }
        },
        None => {},
    }
    let current: Option<&str> = match &text {
        Some(text) => Some(text.as_str()),
        None => None,
    };
    let prepared = pc.prepare_rename(file_uri, line, character);
    assert(offers(pc, file_uri@, line, character, prepared));
    let covered = match prepared {
        Some(_) => true,
        None => match current {
            Some(text) => token_span_at(text, line, character).is_some(),
            None => false,
        },
    };
    if !covered {
        assert(may_answer(pc, source, file_uri@, line, character, None));
        return None;
    }
    let defs = pc.definition_result(file_uri, line, character);
    assert(defines(pc, file_uri@, line, character, defs));
    let hit = pc_hit(current, file_uri, line, character, prepared, &defs);
    assert(may_answer(pc, source, file_uri@, line, character, hit_view(hit)));
    hit
}

/// The overlay as the index holds it.
pub struct PcOverlay<U, N> {
    pub inner: PcOverlayInner<U, N>,
}

impl<U: Fn(&str) -> Option<String>, N: Fn(&str) -> bool> PcOverlay<U, N> {
    /// An overlay that is not installed.
    pub fn new() -> (overlay: PcOverlay<U, N>)
        ensures
            overlay.inner.env is None,
    {
        PcOverlay { inner: PcOverlayInner { env: None } }
    }

    /// The part of the overlay that the ready workspace installs and asks.
    pub fn handle(&mut self) -> (inner: &mut PcOverlayInner<U, N>)
        ensures
            *inner == old(self).inner,
            final(self).inner == *final(inner),
    {
        &mut self.inner
    }

    /// Whether the buffer of a URI is open and its text is not the one on disk.
    pub fn is_dirty<D: Fn(&str) -> Option<String>>(
        &self,
        docs: &DocumentStore,
        disk_text: &D,
        uri: &str,
    ) -> (dirty: bool)
        requires
            self.inner.answers_all(),
            forall|uri: &str| disk_text.requires((uri,)),
        ensures
            self.inner.may_say_dirty(docs@, *disk_text, uri@, dirty),
    {
        self.inner.is_dirty(docs, disk_text, uri)
    }

    /// The symbol at a cursor in an unsaved buffer.
    pub fn symbol_at<P: PcQueryService>(
        &self,
        docs: &DocumentStore,
        pc: &P,
        uri: &str,
        line: u32,
        character: u32,
    ) -> (hit: Option<OverlayHit>)
        requires
            self.inner.answers_all(),
        ensures
            self.inner.may_say(docs@, pc, uri@, line, character, hit_view(hit)),
    {
        self.inner.symbol_at(docs, pc, uri, line, character)
    }

    /// The occurrences of a symbol in unsaved buffers: the compiler has no scan that
    /// would give them.
    pub fn occurrences_of(&self, _semantic_symbol: &str) -> (found: Option<Vec<(String, Span)>>)
        ensures
            found is None,
    {
        None
    }
}

/// An overlay that is not installed finds nothing dirty, answers no cursor and lists
/// no symbol: the index alone is asked.
pub proof fn law_uninstalled_is_silent<
    U: Fn(&str) -> Option<String>,
    N: Fn(&str) -> bool,
    D: Fn(&str) -> Option<String>,
    P: PcQueryService,
>(
    overlay: PcOverlayInner<U, N>,
    docs: Map<Seq<char>, (Seq<char>, i64)>,
    disk_text: D,
    pc: &P,
    uri: Seq<char>,
    line: u32,
    character: u32,
    query: Seq<char>,
)
    requires
        overlay.env is None,
    ensures
        forall|dirty: bool| overlay.may_say_dirty(docs, disk_text, uri, dirty) ==> !dirty,
        forall|hit: Option<OverlayHitV>|
            overlay.may_say(docs, pc, uri, line, character, hit) ==> hit is None,
        forall|symbols: Seq<SymbolV>|
            overlay.may_list(docs, disk_text, query, symbols) ==> symbols.len() == 0,
{
}

/// A file that is not open is never dirty, whatever the disk holds.
pub proof fn law_closed_is_clean<
    U: Fn(&str) -> Option<String>,
    N: Fn(&str) -> bool,
    D: Fn(&str) -> Option<String>,
>(
    overlay: PcOverlayInner<U, N>,
    docs: Map<Seq<char>, (Seq<char>, i64)>,
    disk_text: D,
    uri: Seq<char>,
    dirty: bool,
)
    requires
        overlay.may_say_dirty(docs, disk_text, uri, dirty),
        overlay.env matches Some(env) ==> forall|file: Seq<char>| #[trigger]
            reads(env.to_file_uri, uri, Some(file)) ==> !docs.contains_key(file),
    ensures
        !dirty,
{
    if overlay.env is Some {
        let env = overlay.env->0;
        let file = choose|file: Option<Seq<char>>| #[trigger]
            reads(env.to_file_uri, uri, file) && match file {
                None => !dirty,
                Some(uri) => may_be_dirty(docs, disk_text, uri, dirty),
            };
        if file is Some {
            assert(may_be_dirty(docs, disk_text, file->0, dirty));
        }
    }
}

proof fn lemma_matches(name: Seq<char>, query: Seq<char>)
    ensures
        matches_query(name, query) <==> text::occurs(lowercase(query), lowercase(name)),
{
    let wanted = lowercase(query);
    let given = lowercase(name);
    if holds(given, wanted) {
        let i = choose|i: int| #[trigger] holds_at(given, wanted, i);
        assert(given.subrange(i, i + wanted.len()) == wanted);
    }
    if text::occurs(wanted, given) {
        let i = choose|i: int|
            0 <= i && i + wanted.len() <= given.len() && #[trigger] given.subrange(
                i,
                i + wanted.len(),
            ) == wanted;
        assert(holds_at(given, wanted, i));
    }
    if wanted.len() == 0 {
        assert(given.subrange(0, 0int + wanted.len()) =~= wanted);
    }
}

/// The declarations of two parts of a text in a row are found one after the other, and of a
/// single one it is found where its lower-cased name holds the lower-cased query.
pub proof fn law_matching_in_parts(
    file_uri: Seq<char>,
    first: Seq<TopLevelDeclV>,
    second: Seq<TopLevelDeclV>,
    one: TopLevelDeclV,
    query: Seq<char>,
)
    ensures
        matching(file_uri, first + second, query) == matching(file_uri, first, query) + matching(
            file_uri,
            second,
            query,
        ),
        matching(file_uri, seq![one], query) == (if text::occurs(
            lowercase(query),
            lowercase(one.name),
        ) {
            seq![SymbolV { file_uri, decl: one }]
        } else {
            seq![]
        }),
    decreases second.len(),
{
    lemma_matches(one.name, query);
    reveal_with_fuel(matching, 2);
    assert(seq![one].drop_last() =~= seq![]);
    assert(matching(file_uri, seq![one], query) =~= (if matches_query(one.name, query) {
        seq![SymbolV { file_uri, decl: one }]
    } else {
        seq![]
    }));
    if second.len() == 0 {
        assert(first + second =~= first);
        assert(matching(file_uri, first, query) + matching(file_uri, second, query) =~= matching(
            file_uri,
            first,
            query,
        ));
    } else {
        law_matching_in_parts(file_uri, first, second.drop_last(), one, query);
        assert((first + second).drop_last() =~= first + second.drop_last());
        assert(matching(file_uri, first + second, query) =~= matching(file_uri, first, query)
            + matching(file_uri, second, query));
    }
}

/// What a list of buffers tells is what its parts tell, one after the other: no buffer hides
/// what another one tells. A single buffer tells its declarations that match the query.
pub proof fn law_candidates_in_parts(
    first: Seq<(Seq<char>, Seq<char>)>,
    second: Seq<(Seq<char>, Seq<char>)>,
    one: (Seq<char>, Seq<char>),
    query: Seq<char>,
)
    ensures
        candidates(first + second, query) == candidates(first, query) + candidates(second, query),
        candidates(seq![one], query) == matching(one.0, decls_of(lines::line_list(one.1)), query),
    decreases second.len(),
{
    reveal_with_fuel(candidates, 2);
    assert(seq![one].drop_last() =~= seq![]);
    assert(candidates(seq![one], query) =~= matching(
        one.0,
        decls_of(lines::line_list(one.1)),
        query,
    ));
    if second.len() == 0 {
        assert(first + second =~= first);
        assert(candidates(first, query) + candidates(second, query) =~= candidates(first, query));
    } else {
        law_candidates_in_parts(first, second.drop_last(), one, query);
        assert((first + second).drop_last() =~= first + second.drop_last());
        assert(candidates(first + second, query) =~= candidates(first, query) + candidates(
            second,
            query,
        ));
    }
}

/// What the index has not seen of two lists in a row is what it has not seen of each, one after
/// the other.
pub proof fn law_unseen_in_parts(
    first: Seq<SymbolV>,
    seen_first: Seq<bool>,
    second: Seq<SymbolV>,
    seen_second: Seq<bool>,
)
    requires
        seen_first.len() == first.len(),
        seen_second.len() == second.len(),
    ensures
        unseen(first + second, seen_first + seen_second) == unseen(first, seen_first) + unseen(
            second,
            seen_second,
        ),
    decreases second.len(),
{
    if second.len() == 0 {
        assert(first + second =~= first);
        assert(seen_first + seen_second =~= seen_first);
        assert(unseen(first, seen_first) + unseen(second, seen_second) =~= unseen(
            first,
            seen_first,
        ));
    } else {
        law_unseen_in_parts(first, seen_first, second.drop_last(), seen_second.drop_last());
        assert((first + second).drop_last() =~= first + second.drop_last());
        assert((seen_first + seen_second).drop_last() =~= seen_first + seen_second.drop_last());
        assert(unseen(first + second, seen_first + seen_second) =~= unseen(first, seen_first)
            + unseen(second, seen_second));
    }
}

proof fn lemma_matching(file_uri: Seq<char>, decls: Seq<TopLevelDeclV>, query: Seq<char>)
    ensures
        forall|d: int|
            0 <= d < decls.len() && text::occurs(
                lowercase(query),
                lowercase((#[trigger] decls[d]).name),
            ) ==> matching(file_uri, decls, query).contains(SymbolV { file_uri, decl: decls[d] }),
        forall|k: int|
            0 <= k < matching(file_uri, decls, query).len() ==> {
                let symbol = #[trigger] matching(file_uri, decls, query)[k];
                &&& symbol.file_uri == file_uri
                &&& decls.contains(symbol.decl)
                &&& text::occurs(lowercase(query), lowercase(symbol.decl.name))
            },
    decreases decls.len(),
{
    if decls.len() > 0 {
        let earlier = decls.drop_last();
        let last = decls.last();
        lemma_matching(file_uri, earlier, query);
        lemma_matches(last.name, query);
        let before = matching(file_uri, earlier, query);
        let all = matching(file_uri, decls, query);
        assert forall|d: int|
            0 <= d < decls.len() && text::occurs(
                lowercase(query),
                lowercase((#[trigger] decls[d]).name),
            ) implies all.contains(SymbolV { file_uri, decl: decls[d] }) by {
            let symbol = SymbolV { file_uri, decl: decls[d] };
            if d < earlier.len() {
                assert(earlier[d] == decls[d]);
                assert(all[before.index_of(symbol)] == symbol);
            } else {
                assert(all[before.len() as int] == symbol);
            }
        }
        assert forall|k: int| 0 <= k < all.len() implies {
            let symbol = #[trigger] all[k];
            &&& symbol.file_uri == file_uri
            &&& decls.contains(symbol.decl)
            &&& text::occurs(lowercase(query), lowercase(symbol.decl.name))
        } by {
            if k < before.len() {
                assert(before[k] == all[k]);
                assert(decls[earlier.index_of(all[k].decl)] == all[k].decl);
            } else {
                assert(decls[decls.len() - 1] == last);
            }
        }
    }
}

/// A buffer declares something: it is among the top-level declarations of its text.
pub open spec fn declares(buffer: (Seq<char>, Seq<char>), decl: TopLevelDeclV) -> bool {
    decls_of(lines::line_list(buffer.1)).contains(decl)
}

proof fn lemma_candidates(buffers: Seq<(Seq<char>, Seq<char>)>, query: Seq<char>)
    ensures
        forall|b: int, decl: TopLevelDeclV|
            0 <= b < buffers.len() && #[trigger] declares(buffers[b], decl) && text::occurs(
                lowercase(query),
                lowercase(decl.name),
            ) ==> candidates(buffers, query).contains(SymbolV { file_uri: buffers[b].0, decl }),
        forall|k: int|
            0 <= k < candidates(buffers, query).len() ==> told(
                buffers,
                query,
                #[trigger] candidates(buffers, query)[k],
            ),
    decreases buffers.len(),
{
    if buffers.len() > 0 {
        let earlier = buffers.drop_last();
        let last = buffers.last();
        let decls = decls_of(lines::line_list(last.1));
        let before = candidates(earlier, query);
        let more = matching(last.0, decls, query);
        let all = candidates(buffers, query);
        lemma_candidates(earlier, query);
        lemma_matching(last.0, decls, query);
        assert forall|b: int, decl: TopLevelDeclV|
            0 <= b < buffers.len() && #[trigger] declares(buffers[b], decl) && text::occurs(
                lowercase(query),
                lowercase(decl.name),
            ) implies all.contains(SymbolV { file_uri: buffers[b].0, decl }) by {
            let symbol = SymbolV { file_uri: buffers[b].0, decl };
            if b < earlier.len() {
                assert(earlier[b] == buffers[b]);
                assert(declares(earlier[b], decl));
                assert(all[before.index_of(symbol)] == symbol);
            } else {
                let d = decls.index_of(decl);
                assert(decls[d] == decl);
                assert(all[before.len() + more.index_of(symbol)] == symbol);
            }
        }
        assert forall|k: int| 0 <= k < all.len() implies told(buffers, query, #[trigger] all[k]) by {
            if k < before.len() {
                assert(all[k] == before[k]);
                assert(told(earlier, query, before[k]));
                let b = choose|b: int|
                    0 <= b < earlier.len() && #[trigger] declares(earlier[b], all[k].decl)
                        && earlier[b].0 == all[k].file_uri;
                assert(declares(buffers[b], all[k].decl));
            } else {
                assert(all[k] == more[k - before.len()]);
                assert(declares(buffers[buffers.len() - 1], all[k].decl));
            }
        }
    }
}

/// A buffer of the given ones declares a symbol under its URI, and the lower-cased name of the
/// symbol holds the lower-cased query.
pub open spec fn told(
    buffers: Seq<(Seq<char>, Seq<char>)>,
    query: Seq<char>,
    symbol: SymbolV,
) -> bool {
    &&& text::occurs(lowercase(query), lowercase(symbol.decl.name))
    &&& exists|b: int|
        0 <= b < buffers.len() && #[trigger] declares(buffers[b], symbol.decl) && buffers[b].0
            == symbol.file_uri
}

proof fn lemma_unseen(symbols: Seq<SymbolV>, indexed: Seq<bool>)
    requires
        indexed.len() == symbols.len(),
    ensures
        forall|i: int|
            0 <= i < symbols.len() && !(#[trigger] indexed[i]) ==> unseen(
                symbols,
                indexed,
            ).contains(symbols[i]),
        forall|k: int|
            0 <= k < unseen(symbols, indexed).len() ==> left(
                symbols,
                indexed,
                #[trigger] unseen(symbols, indexed)[k],
            ),
    decreases symbols.len(),
{
    if symbols.len() > 0 {
        let earlier = symbols.drop_last();
        let seen = indexed.drop_last();
        lemma_unseen(earlier, seen);
        let before = unseen(earlier, seen);
        let all = unseen(symbols, indexed);
        assert forall|i: int| 0 <= i < symbols.len() && !(
        #[trigger] indexed[i]) implies all.contains(symbols[i]) by {
            if i < earlier.len() {
                assert(seen[i] == indexed[i]);
                assert(earlier[i] == symbols[i]);
                assert(all[before.index_of(symbols[i])] == symbols[i]);
            } else {
                assert(all[before.len() as int] == symbols[i]);
            }
        }
        assert forall|k: int| 0 <= k < all.len() implies left(
            symbols,
            indexed,
            #[trigger] all[k],
        ) by {
            if k < before.len() {
                assert(all[k] == before[k]);
                assert(left(earlier, seen, before[k]));
                let i = choose|i: int|
                    0 <= i < earlier.len() && #[trigger] earlier[i] == all[k] && !seen[i];
                assert(symbols[i] == all[k] && !indexed[i]);
            } else {
                assert(symbols[symbols.len() - 1] == all[k] && !indexed[symbols.len() - 1]);
            }
        }
    }
}

/// A symbol is among the given ones, with the answer that the index does not have it.
pub open spec fn left(symbols: Seq<SymbolV>, indexed: Seq<bool>, symbol: SymbolV) -> bool {
    exists|i: int| 0 <= i < symbols.len() && #[trigger] symbols[i] == symbol && !indexed[i]
}

/// A symbol of the result is a declaration under a URI.
pub open spec fn names_decl(
    symbol: PcOnlySymbol,
    file_uri: Seq<char>,
    decl: TopLevelDeclV,
) -> bool {
    &&& symbol.file_uri@ == file_uri
    &&& symbol.name@ == decl.name
    &&& symbol.keyword@ == decl.keyword
    &&& symbol.span == decl.span
}

/// Every buffer is searched: each top-level declaration of each buffer whose lower-cased name
/// holds the lower-cased query, and whose name the index never answers to have, is in the
/// result under the URI of its buffer, with its name, keyword and span. And what is in the
/// result is such a declaration, of which the index may answer that it does not have it.
pub proof fn law_unsaved_symbols_found<F: Fn(&str) -> bool>(
    is_indexed_name: F,
    buffers: Seq<(String, String)>,
    query: Seq<char>,
    symbols: Seq<PcOnlySymbol>,
)
    requires
        are_unseen(is_indexed_name, buffer_views(buffers), query, symbol_views(symbols)),
    ensures
        forall|b: int, decl: TopLevelDeclV|
            0 <= b < buffers.len() && #[trigger] declares((buffers[b].0@, buffers[b].1@), decl)
                && text::occurs(lowercase(query), lowercase(decl.name)) && !answers(
                is_indexed_name,
                decl.name,
                true,
            ) ==> exists|k: int|
                0 <= k < symbols.len() && names_decl(
                    #[trigger] symbols[k],
                    buffers[b].0@,
                    decl,
                ),
        forall|k: int|
            0 <= k < symbols.len() ==> {
                &&& text::occurs(lowercase(query), lowercase((#[trigger] symbols[k]).name@))
                &&& answers(is_indexed_name, symbols[k].name@, false)
                &&& exists|b: int|
                    0 <= b < buffers.len() && buffers[b].0@ == symbols[k].file_uri@
                        && #[trigger] declares(
                        (buffers[b].0@, buffers[b].1@),
                        TopLevelDeclV {
                            name: symbols[k].name@,
                            keyword: symbols[k].keyword@,
                            span: symbols[k].span,
                        },
                    )
            },
{
    let views = buffer_views(buffers);
    let all = candidates(views, query);
    let found = symbol_views(symbols);
    let indexed = choose|indexed: Seq<bool>| #[trigger]
        all_answered(is_indexed_name, all, indexed) && found == unseen(all, indexed);
    lemma_candidates(views, query);
    lemma_unseen(all, indexed);
    assert forall|b: int, decl: TopLevelDeclV|
        0 <= b < buffers.len() && #[trigger] declares((buffers[b].0@, buffers[b].1@), decl)
            && text::occurs(lowercase(query), lowercase(decl.name)) && !answers(
            is_indexed_name,
            decl.name,
            true,
        ) implies exists|k: int|
        0 <= k < symbols.len() && names_decl(#[trigger] symbols[k], buffers[b].0@, decl) by {
        let symbol = SymbolV { file_uri: buffers[b].0@, decl };
        assert(views[b] == (buffers[b].0@, buffers[b].1@));
        assert(declares(views[b], decl));
        let i = all.index_of(symbol);
        assert(all[i] == symbol);
        assert(answers(is_indexed_name, all[i].decl.name, indexed[i]));
        assert(!indexed[i]);
        assert(found.contains(symbol));
        let k = found.index_of(symbol);
        assert(found[k] == symbol);
        assert(names_decl(symbols[k], buffers[b].0@, decl));
    }
    assert forall|k: int| 0 <= k < symbols.len() implies {
        &&& text::occurs(lowercase(query), lowercase((#[trigger] symbols[k]).name@))
        &&& answers(is_indexed_name, symbols[k].name@, false)
        &&& exists|b: int|
            0 <= b < buffers.len() && buffers[b].0@ == symbols[k].file_uri@ && #[trigger] declares(
                (buffers[b].0@, buffers[b].1@),
                TopLevelDeclV {
                    name: symbols[k].name@,
                    keyword: symbols[k].keyword@,
                    span: symbols[k].span,
                },
            )
    } by {
        let symbol = found[k];
        assert(left(all, indexed, symbol));
        let i = choose|i: int| 0 <= i < all.len() && #[trigger] all[i] == symbol && !indexed[i];
        assert(answers(is_indexed_name, all[i].decl.name, indexed[i]));
        assert(told(views, query, all[i]));
        let b = choose|b: int|
            0 <= b < views.len() && #[trigger] declares(views[b], symbol.decl) && views[b].0
                == symbol.file_uri;
        assert(views[b] == (buffers[b].0@, buffers[b].1@));
        assert(declares(
            (buffers[b].0@, buffers[b].1@),
            TopLevelDeclV {
                name: symbols[k].name@,
                keyword: symbols[k].keyword@,
                span: symbols[k].span,
            },
        ));
    }
}

/// The dirty buffers are the open ones whose text is not the one on disk, each with its whole
/// text, once and in the order of the URIs.
pub proof fn law_dirty_buffers_found(
    docs: Map<Seq<char>, (Seq<char>, i64)>,
    uris: Seq<Seq<char>>,
    disk: Seq<Option<Seq<char>>>,
)
    requires
        order::strictly_sorted(uris),
        uris.to_set() == docs.dom(),
        disk.len() == uris.len(),
    ensures
        forall|i: int|
            0 <= i < uris.len() && disk[i] != Some(docs[uris[i]].0) ==> dirty_of(
                docs,
                uris,
                disk,
            ).contains((#[trigger] uris[i], docs[uris[i]].0)),
        forall|k: int|
            0 <= k < dirty_of(docs, uris, disk).len() ==> unsaved(
                docs,
                uris,
                disk,
                #[trigger] dirty_of(docs, uris, disk)[k],
            ),
        forall|j: int, k: int|
            0 <= j < k < dirty_of(docs, uris, disk).len() ==> order::before(
                (#[trigger] dirty_of(docs, uris, disk)[j]).0,
                (#[trigger] dirty_of(docs, uris, disk)[k]).0,
            ),
{
    lemma_dirty(docs, uris, disk);
}

/// A buffer has one of the given URIs and the text of its document, which is not the one on
/// disk.
pub open spec fn unsaved(
    docs: Map<Seq<char>, (Seq<char>, i64)>,
    uris: Seq<Seq<char>>,
    disk: Seq<Option<Seq<char>>>,
    buffer: (Seq<char>, Seq<char>),
) -> bool {
    exists|i: int|
        0 <= i < uris.len() && #[trigger] uris[i] == buffer.0 && docs[uris[i]].0 == buffer.1
            && disk[i] != Some(buffer.1)
}

proof fn lemma_dirty(
    docs: Map<Seq<char>, (Seq<char>, i64)>,
    uris: Seq<Seq<char>>,
    disk: Seq<Option<Seq<char>>>,
)
    requires
        order::strictly_sorted(uris),
        disk.len() == uris.len(),
    ensures
        forall|i: int|
            0 <= i < uris.len() && disk[i] != Some(docs[uris[i]].0) ==> dirty_of(
                docs,
                uris,
                disk,
            ).contains((#[trigger] uris[i], docs[uris[i]].0)),
        forall|k: int|
            0 <= k < dirty_of(docs, uris, disk).len() ==> unsaved(
                docs,
                uris,
                disk,
                #[trigger] dirty_of(docs, uris, disk)[k],
            ),
        forall|j: int, k: int|
            0 <= j < k < dirty_of(docs, uris, disk).len() ==> order::before(
                (#[trigger] dirty_of(docs, uris, disk)[j]).0,
                (#[trigger] dirty_of(docs, uris, disk)[k]).0,
            ),
    decreases uris.len(),
{
    if uris.len() > 0 {
        let shorter = uris.drop_last();
        let saved = disk.drop_last();
        lemma_dirty(docs, shorter, saved);
        let before = dirty_of(docs, shorter, saved);
        let all = dirty_of(docs, uris, disk);
        let n = uris.len() - 1;
        assert forall|i: int|
            0 <= i < uris.len() && disk[i] != Some(docs[uris[i]].0) implies all.contains(
            (#[trigger] uris[i], docs[uris[i]].0),
        ) by {
            let buffer = (uris[i], docs[uris[i]].0);
            if i < n {
                assert(shorter[i] == uris[i] && saved[i] == disk[i]);
                assert(all[before.index_of(buffer)] == buffer);
            } else {
                assert(all[before.len() as int] == buffer);
            }
        }
        assert forall|k: int| 0 <= k < all.len() implies unsaved(
            docs,
            uris,
            disk,
            #[trigger] all[k],
        ) by {
            if k < before.len() {
                assert(all[k] == before[k]);
                assert(unsaved(docs, shorter, saved, before[k]));
                let i = choose|i: int|
                    0 <= i < shorter.len() && #[trigger] shorter[i] == all[k].0
                        && docs[shorter[i]].0 == all[k].1 && saved[i] != Some(all[k].1);
                assert(uris[i] == all[k].0 && disk[i] == saved[i]);
            } else {
                assert(uris[n] == all[k].0);
            }
        }
        assert forall|j: int, k: int| 0 <= j < k < all.len() implies order::before(
            (#[trigger] all[j]).0,
            (#[trigger] all[k]).0,
        ) by {
            assert(all[j] == before[j]);
            if k < before.len() {
                assert(all[k] == before[k]);
            } else {
                assert(unsaved(docs, shorter, saved, before[j]));
                let i = choose|i: int|
                    0 <= i < shorter.len() && #[trigger] shorter[i] == all[j].0
                        && docs[shorter[i]].0 == all[j].1 && saved[i] != Some(all[j].1);
                assert(uris[i] == all[j].0 && uris[n] == all[k].0);
            }
        }
    }
}

/// The declaration under a cursor is one of those of the text, on the line of the cursor and
/// with the cursor on its name or right behind it, and the first such; without one under the
/// cursor there is none.
pub proof fn law_decl_under_cursor(decls: Seq<TopLevelDeclV>, line: u32, character: u32)
    ensures
        match decl_under(decls, line, character) {
            Some(decl) => exists|k: int|
                0 <= k < decls.len() && #[trigger] decls[k] == decl && on_name(
                    decl,
                    line,
                    character,
                ) && forall|j: int|
                    0 <= j < k ==> !on_name(#[trigger] decls[j], line, character),
            None => forall|j: int|
                0 <= j < decls.len() ==> !on_name(#[trigger] decls[j], line, character),
        },
    decreases decls.len(),
{
    if decls.len() > 0 {
        if covers(decls[0].span, line, character) {
            assert(on_name(decls[0], line, character));
        } else {
            let rest = decls.drop_first();
            law_decl_under_cursor(rest, line, character);
            match decl_under(rest, line, character) {
                Some(decl) => {
                    let k = choose|k: int|
                        0 <= k < rest.len() && #[trigger] rest[k] == decl && on_name(
                            decl,
                            line,
                            character,
                        ) && forall|j: int|
                            0 <= j < k ==> !on_name(#[trigger] rest[j], line, character);
                    assert(decls[k + 1] == decl);
                    assert forall|j: int| 0 <= j < k + 1 implies !on_name(
                        #[trigger] decls[j],
                        line,
                        character,
                    ) by {
                        if j > 0 {
                            assert(rest[j - 1] == decls[j]);
                        }
                    }
                },
                None => {
                    assert forall|j: int| 0 <= j < decls.len() implies !on_name(
                        #[trigger] decls[j],
                        line,
                        character,
                    ) by {
                        if j > 0 {
                            assert(rest[j - 1] == decls[j]);
                        }
                    }
                },
            }
        }
    }
}

/// A cursor stands on the name of a declaration, or right behind it.
pub open spec fn on_name(decl: TopLevelDeclV, line: u32, character: u32) -> bool {
    &&& decl.span.start_line == line
    &&& decl.span.start_char <= character
    &&& character <= decl.span.end_char
}

/// The identifier that touches a cursor is the longest run of identifier parts around it: each
/// unit of it is a part, the units beside it are not, and the cursor, or the end of the line
/// where that comes first, is in it or at its edge. Without one neither unit beside the cursor
/// is a part.
pub proof fn law_token_is_whole(line_text: Seq<char>, line: u32, character: u32)
    requires
        utf16(line_text).len() <= u32::MAX,
    ensures
        ({
            let units = utf16(line_text);
            let at = if character < units.len() {
                character as int
            } else {
                units.len() as int
            };
            match token_span(line_text, line, character) {
                Some(span) => {
                    &&& span.start_line == line && span.end_line == line
                    &&& span.start_char <= at <= span.end_char <= units.len()
                    &&& span.start_char < span.end_char
                    &&& forall|k: int|
                        span.start_char <= k < span.end_char ==> id_part(#[trigger] units[k])
                    &&& span.start_char > 0 ==> !id_part(units[span.start_char - 1])
                    &&& span.end_char < units.len() ==> !id_part(units[span.end_char as int])
                },
                None => {
                    &&& at > 0 ==> !id_part(units[at - 1])
                    &&& at < units.len() ==> !id_part(units[at])
                },
            }
        }),
{
    let units = utf16(line_text);
    let at = if character < units.len() {
        character as int
    } else {
        units.len() as int
    };
    lemma_id_start(units, at);
    lemma_id_end(units, at);
}

proof fn lemma_id_start(units: Seq<u16>, at: int)
    requires
        0 <= at <= units.len(),
    ensures
        0 <= id_start(units, at) <= at,
        forall|k: int| id_start(units, at) <= k < at ==> id_part(#[trigger] units[k]),
        id_start(units, at) > 0 ==> !id_part(units[id_start(units, at) - 1]),
        id_start(units, at) == at ==> (at > 0 ==> !id_part(units[at - 1])),
    decreases at,
{
    if at > 0 && id_part(units[at - 1]) {
        lemma_id_start(units, at - 1);
    }
}

proof fn lemma_id_end(units: Seq<u16>, at: int)
    requires
        0 <= at <= units.len(),
    ensures
        at <= id_end(units, at) <= units.len(),
        forall|k: int| at <= k < id_end(units, at) ==> id_part(#[trigger] units[k]),
        id_end(units, at) < units.len() ==> !id_part(units[id_end(units, at)]),
    decreases units.len() - at,
{
    if at < units.len() && id_part(units[at]) {
        lemma_id_end(units, at + 1);
    }
}

/// The symbol at a cursor has the name that the compiler gives it and the span that the compiler
/// offers, coordinate by coordinate, and there is none without a span or without a name. It is
/// a definition where one of the workspace's definitions is in the file with that very span,
/// and else a reference. The index cannot know it where it has definitions, none of them in
/// the workspace.
pub proof fn law_hit_as_defined(offered: PcSpan, defs: PcDefinition, file_uri: Seq<char>)
    ensures
        resolved_hit(None, defs, file_uri) is None,
        match resolved_hit(Some(span_of(offered)), defs, file_uri) {
            Some(hit) => {
                &&& defs.symbol@.len() > 0 && hit.semantic_symbol == defs.symbol@
                &&& hit.span.start_line == offered.start_line
                &&& hit.span.start_char == offered.start_character
                &&& hit.span.end_line == offered.end_line
                &&& hit.span.end_char == offered.end_character
                &&& (forall|i: int|
                    0 <= i < defs.locations@.len() ==> !defines_here(
                        #[trigger] defs.locations@[i],
                        file_uri,
                        offered,
                    )) <==> hit.role == Role::Reference
                &&& hit.pc_only ==> defs.locations@.len() > 0
                &&& defs.locations@.len() > 0 ==> (hit.pc_only <==> forall|i: int|
                    0 <= i < defs.locations@.len() ==> !((
                    #[trigger] defs.locations@[i]).origin is Workspace))
            },
            None => defs.symbol@.len() == 0,
        },
{
    assert forall|i: int| 0 <= i < defs.locations@.len() implies defines_here(
        #[trigger] defs.locations@[i],
        file_uri,
        offered,
    ) == is_here(defs.locations@[i], file_uri, span_of(offered)) by {}
}

/// A definition is in the workspace, in the given file and with the coordinates of the given
/// span.
pub open spec fn defines_here(
    location: PcDefLocation,
    file_uri: Seq<char>,
    span: PcSpan,
) -> bool {
    &&& location.origin is Workspace
    &&& location.uri@ == file_uri
    &&& location.span.start_line == span.start_line
    &&& location.span.start_character == span.start_character
    &&& location.span.end_line == span.end_line
    &&& location.span.end_character == span.end_character
}

/// A word that declares what follows it.
pub open spec fn declaring(word: Seq<char>) -> bool {
    ||| word == "object"@
    ||| word == "class"@
    ||| word == "trait"@
    ||| word == "enum"@
    ||| word == "def"@
    ||| word == "val"@
    ||| word == "var"@
    ||| word == "type"@
}

/// A word that says more of a declaration, in front of the word that declares.
pub open spec fn qualifying(word: Seq<char>) -> bool {
    ||| word == "private"@
    ||| word == "protected"@
    ||| word == "final"@
    ||| word == "sealed"@
    ||| word == "abstract"@
    ||| word == "case"@
    ||| word == "open"@
    ||| word == "implicit"@
    ||| word == "lazy"@
    ||| word == "override"@
    ||| word == "inline"@
    ||| word == "transparent"@
}

/// A character of a name: a letter, a digit, `_` or `$`.
pub open spec fn in_name(c: char) -> bool {
    'a' <= c <= 'z' || 'A' <= c <= 'Z' || '0' <= c <= '9' || c == '_' || c == '$'
}

/// A name: it begins with a letter or `_`.
pub open spec fn is_name(name: Seq<char>) -> bool {
    &&& name.len() > 0
    &&& 'a' <= name[0] <= 'z' || 'A' <= name[0] <= 'Z' || name[0] == '_'
    &&& forall|i: int| 0 <= i < name.len() ==> in_name(#[trigger] name[i])
}

/// White space, and some of it.
pub open spec fn is_gap(gap: Seq<char>) -> bool {
    &&& gap.len() > 0
    &&& forall|i: int| 0 <= i < gap.len() ==> text::whitespace(#[trigger] gap[i])
}

/// A text does not begin with white space.
pub open spec fn flush(s: Seq<char>) -> bool {
    s.len() > 0 ==> !text::whitespace(s[0])
}

proof fn lemma_word_chars(word: Seq<char>)
    requires
        declaring(word) || qualifying(word),
    ensures
        word.len() > 0,
        forall|i: int| 0 <= i < word.len() ==> !text::whitespace(#[trigger] word[i]),
        declaring(word) ==> is_keyword(word),
        qualifying(word) ==> is_modifier(word) && !is_keyword(word),
{
    reveal_strlit("object");
    reveal_strlit("class");
    reveal_strlit("trait");
    reveal_strlit("enum");
    reveal_strlit("def");
    reveal_strlit("val");
    reveal_strlit("var");
    reveal_strlit("type");
    reveal_strlit("private");
    reveal_strlit("protected");
    reveal_strlit("final");
    reveal_strlit("sealed");
    reveal_strlit("abstract");
    reveal_strlit("case");
    reveal_strlit("open");
    reveal_strlit("implicit");
    reveal_strlit("lazy");
    reveal_strlit("override");
    reveal_strlit("inline");
    reveal_strlit("transparent");
    assert forall|i: int| 0 <= i < word.len() implies !text::whitespace(#[trigger] word[i]) by {
        assert(i == 0 || i == 1 || i == 2 || i == 3 || i == 4 || i == 5 || i == 6 || i == 7 || i
            == 8 || i == 9 || i == 10);
    }
    if qualifying(word) {
        assert(word[0] == 'p' || word[0] == 'f' || word[0] == 's' || word[0] == 'a' || word[0]
            == 'i' || word[0] == 'l' || word.len() == 11 || word.len() == 8 || word[1] == 'a'
            || word[1] == 'p');
        assert(!is_keyword(word));
    }
}

proof fn lemma_first_word(word: Seq<char>, rest: Seq<char>)
    requires
        forall|i: int| 0 <= i < word.len() ==> !text::whitespace(#[trigger] word[i]),
        rest.len() > 0 ==> text::whitespace(rest[0]),
    ensures
        word_end(word + rest) == word.len(),
    decreases word.len(),
{
    let s = word + rest;
    if word.len() > 0 {
        assert(s[0] == word[0]);
        assert(s.drop_first() =~= word.drop_first() + rest);
        lemma_first_word(word.drop_first(), rest);
    } else {
        assert(s =~= rest);
    }
}

proof fn lemma_gap_trimmed(gap: Seq<char>, rest: Seq<char>)
    requires
        forall|i: int| 0 <= i < gap.len() ==> text::whitespace(#[trigger] gap[i]),
        flush(rest),
    ensures
        text::trimmed_start(gap + rest) == rest,
    decreases gap.len(),
{
    let s = gap + rest;
    if gap.len() > 0 {
        assert(s[0] == gap[0]);
        assert(s.drop_first() =~= gap.drop_first() + rest);
        lemma_gap_trimmed(gap.drop_first(), rest);
    } else {
        assert(s =~= rest);
    }
}

proof fn lemma_name_read(name: Seq<char>, tail: Seq<char>, i: int)
    requires
        0 <= i <= name.len(),
        forall|k: int| 0 <= k < name.len() ==> in_name(#[trigger] name[k]),
        tail.len() > 0 ==> !in_name(tail[0]),
    ensures
        name_stop(name + tail, i) == name.len(),
    decreases name.len() - i,
{
    let s = name + tail;
    if i < name.len() {
        assert(s[i] == name[i]);
        lemma_name_read(name, tail, i + 1);
    } else if tail.len() > 0 {
        assert(s[i] == tail[0]);
    }
}

proof fn lemma_parted(word: Seq<char>, gap: Seq<char>, rest: Seq<char>)
    requires
        forall|i: int| 0 <= i < word.len() ==> !text::whitespace(#[trigger] word[i]),
        is_gap(gap),
        flush(rest),
    ensures
        ({
            let s = word + gap + rest;
            &&& s.take(word_end(s)) == word
            &&& s.skip(word_end(s)) == gap + rest
            &&& text::trimmed_start(gap + rest) == rest
            &&& (gap + rest).len() > rest.len()
        }),
{
    let s = word + gap + rest;
    assert(s =~= word + (gap + rest));
    assert((gap + rest)[0] == gap[0]);
    lemma_first_word(word, gap + rest);
    lemma_gap_trimmed(gap, rest);
    assert(s.take(word_end(s)) =~= word);
    assert(s.skip(word_end(s)) =~= gap + rest);
}

/// A declaration at the beginning of a line is found: a declaring word, white space and a name
/// give that name and that word, on that line, with a span that covers the name.
pub proof fn law_declaration_read(
    line: u32,
    word: Seq<char>,
    gap: Seq<char>,
    name: Seq<char>,
    tail: Seq<char>,
)
    requires
        declaring(word),
        is_gap(gap),
        is_name(name),
        tail.len() > 0 ==> !in_name(tail[0]),
        text::utf16_len(word + gap + name) <= u32::MAX,
    ensures
        placed_decl(line, word + gap + (name + tail)) matches Some(decl) && decl.name == name
            && decl.keyword == word && decl.span.start_line == line && decl.span.end_line == line
            && decl.span.start_char == text::utf16_len(word + gap) && decl.span.end_char
            == text::utf16_len(word + gap + name),
{
    let rest = name + tail;
    let s = word + gap + rest;
    lemma_word_chars(word);
    assert(rest[0] == name[0]);
    assert(in_name(name[0]));
    lemma_parted(word, gap, rest);
    lemma_name_read(name, tail, 1);
    assert(rest.take(name.len() as int) =~= name);
    assert(s[0] == word[0]);
    assert(s.take(s.len() - rest.len()) =~= word + gap);
    text::lemma_utf16_len_add(word + gap, name);
}

/// A qualifying word in front of a declaration changes nothing but its place: the line has the
/// declaration that the rest of it has, moved to the right.
pub proof fn law_qualifier_skipped(line: u32, word: Seq<char>, gap: Seq<char>, rest: Seq<char>)
    requires
        qualifying(word),
        is_gap(gap),
        flush(rest),
        text::utf16_len(word + gap) + text::utf16_len(rest) <= u32::MAX,
    ensures
        match placed_decl(line, rest) {
            Some(decl) => placed_decl(line, word + gap + rest) matches Some(whole) && whole.name
                == decl.name && whole.keyword == decl.keyword && whole.span.start_line == line
                && whole.span.end_line == line && whole.span.start_char == decl.span.start_char
                + text::utf16_len(word + gap) && whole.span.end_char == decl.span.end_char
                + text::utf16_len(word + gap),
            None => placed_decl(line, word + gap + rest) is None,
        },
{
    let s = word + gap + rest;
    lemma_word_chars(word);
    lemma_parted(word, gap, rest);
    assert(s[0] == word[0]);
    assert(decl_of(s) == decl_of(rest));
    match decl_of(rest) {
        Some(decl) => {
            lemma_decl_shape(rest);
            let p = rest.len() - decl.rest;
            assert(s.take(s.len() - decl.rest) =~= (word + gap) + rest.take(p));
            text::lemma_utf16_len_add(word + gap, rest.take(p));
            assert(rest =~= rest.take(p) + decl.name + rest.skip(p + decl.name.len()));
            text::lemma_utf16_len_add(rest.take(p), decl.name);
            text::lemma_utf16_len_add(
                rest.take(p) + decl.name,
                rest.skip(p + decl.name.len()),
            );
        },
        None => {},
    }
}

proof fn lemma_decl_shape(s: Seq<char>)
    ensures
        decl_of(s) matches Some(decl) ==> {
            let p = s.len() - decl.rest;
            &&& 0 < p && p + decl.name.len() <= s.len()
            &&& s.subrange(p, p + decl.name.len()) == decl.name
            &&& is_name(decl.name)
            &&& p + decl.name.len() < s.len() ==> !in_name(s[p + decl.name.len()])
            &&& declaring(decl.keyword)
        },
    decreases s.len(),
{
    let after = s.skip(word_end(s));
    let rest = text::trimmed_start(after);
    lemma_word_end(s);
    lemma_trimmed_tail(after);
    assert(after =~= s.skip(s.len() - after.len()));
    assert(rest =~= s.skip(s.len() - rest.len()));
    match decl_of(s) {
        Some(decl) => {
            if is_keyword(s.take(word_end(s))) {
                lemma_name_stop(rest, 1);
                lemma_name_shape(rest, 1);
                let p = s.len() - decl.rest;
                assert(s.subrange(p, p + decl.name.len()) =~= decl.name);
                assert forall|i: int| 0 <= i < decl.name.len() implies in_name(
                    #[trigger] decl.name[i],
                ) by {
                    assert(decl.name[i] == rest[i]);
                }
            } else {
                lemma_decl_shape(rest);
                let p = rest.len() - decl.rest;
                let q = s.len() - decl.rest;
                assert(s.subrange(q, q + decl.name.len()) =~= rest.subrange(
                    p,
                    p + decl.name.len(),
                ));
                if q + decl.name.len() < s.len() {
                    assert(s[q + decl.name.len()] == rest[p + decl.name.len()]);
                }
            }
        },
        None => {},
    }
}

proof fn lemma_trimmed_tail(s: Seq<char>)
    ensures
        text::trimmed_start(s).len() <= s.len(),
        text::trimmed_start(s) == s.skip(s.len() - text::trimmed_start(s).len()),
    decreases s.len(),
{
    if s.len() > 0 && text::whitespace(s[0]) {
        lemma_trimmed_tail(s.drop_first());
        let t = text::trimmed_start(s);
        assert(t =~= s.skip(s.len() - t.len()));
    } else {
        assert(s.skip(0) =~= s);
    }
}

proof fn lemma_name_shape(s: Seq<char>, i: int)
    requires
        0 <= i <= s.len(),
    ensures
        i <= name_stop(s, i) <= s.len(),
        forall|k: int| i <= k < name_stop(s, i) ==> in_name(#[trigger] s[k]),
        name_stop(s, i) < s.len() ==> !in_name(s[name_stop(s, i)]),
    decreases s.len() - i,
{
    if i < s.len() && name_part(s[i]) {
        lemma_name_shape(s, i + 1);
    }
}

/// The span of a declaration covers its name in the line: the name is a whole one, stands behind
/// a declaring word, and begins and ends at the characters that the span says. A line that
/// begins with white space declares nothing.
pub proof fn law_declaration_covers_name(line: u32, line_text: Seq<char>)
    requires
        text::utf16_len(line_text) <= u32::MAX,
    ensures
        line_text.len() > 0 && text::whitespace(line_text[0]) ==> placed_decl(line, line_text)
            is None,
        placed_decl(line, line_text) matches Some(decl) ==> {
            &&& declaring(decl.keyword)
            &&& is_name(decl.name)
            &&& decl.span.start_line == line && decl.span.end_line == line
            &&& exists|p: int|
                0 < p && p + decl.name.len() <= line_text.len() && #[trigger] line_text.subrange(
                    p,
                    p + decl.name.len(),
                ) == decl.name && decl.span.start_char == text::utf16_len(line_text.take(p))
                    && decl.span.end_char == text::utf16_len(
                    line_text.take(p + decl.name.len()),
                ) && (p + decl.name.len() < line_text.len() ==> !in_name(
                    line_text[p + decl.name.len()],
                ))
        },
{
    match line_decl(line_text) {
        Some(decl) => {
            lemma_decl_shape(line_text);
            let p = line_text.len() - decl.rest;
            let q = p + decl.name.len();
            assert(line_text.take(q) =~= line_text.take(p) + decl.name);
            text::lemma_utf16_len_add(line_text.take(p), decl.name);
            assert(line_text =~= line_text.take(q) + line_text.skip(q));
            text::lemma_utf16_len_add(line_text.take(q), line_text.skip(q));
            assert(line_text.subrange(p, p + decl.name.len()) == decl.name);
        },
        None => {},
    }
}

/// Every line is searched: the declaration of each line is found, with the number of its line,
/// in the order of the lines, and nothing else is.
pub proof fn law_each_line_searched(list: Seq<Seq<char>>)
    requires
        list.len() <= u32::MAX,
    ensures
        forall|i: int|
            0 <= i < list.len() ==> (placed_decl(i as u32, #[trigger] list[i]) matches Some(decl)
                ==> decls_of(list).contains(decl)),
        forall|k: int|
            0 <= k < decls_of(list).len() ==> {
                let decl = #[trigger] decls_of(list)[k];
                &&& decl.span.start_line < list.len()
                &&& placed_decl(decl.span.start_line, list[decl.span.start_line as int]) == Some(
                    decl,
                )
            },
        forall|j: int, k: int|
            0 <= j < k < decls_of(list).len() ==> (#[trigger] decls_of(list)[j]).span.start_line
                < (#[trigger] decls_of(list)[k]).span.start_line,
    decreases list.len(),
{
    if list.len() > 0 {
        let shorter = list.drop_last();
        law_each_line_searched(shorter);
        let before = decls_of(shorter);
        let all = decls_of(list);
        let n = list.len() - 1;
        assert forall|i: int| 0 <= i < list.len() implies (placed_decl(
            i as u32,
            #[trigger] list[i],
        ) matches Some(decl) ==> all.contains(decl)) by {
            match placed_decl(i as u32, list[i]) {
                Some(decl) => {
                    if i < n {
                        assert(shorter[i] == list[i]);
                        assert(before.contains(decl));
                        assert(all[before.index_of(decl)] == decl);
                    } else {
                        assert(all[before.len() as int] == decl);
                    }
                },
                None => {},
            }
        }
        assert forall|k: int| 0 <= k < all.len() implies {
            let decl = #[trigger] all[k];
            &&& decl.span.start_line < list.len()
            &&& placed_decl(decl.span.start_line, list[decl.span.start_line as int]) == Some(decl)
        } by {
            if k < before.len() {
                assert(all[k] == before[k]);
                assert(shorter[before[k].span.start_line as int]
                    == list[before[k].span.start_line as int]);
            }
        }
        assert forall|j: int, k: int| 0 <= j < k < all.len() implies (
        #[trigger] all[j]).span.start_line < (#[trigger] all[k]).span.start_line by {
            assert(all[j] == before[j]);
            if k < before.len() {
                assert(all[k] == before[k]);
            }
        }
    }
}

/// A buffer is dirty only where it is open and the disk holds another text or none, and an open
/// buffer is clean only where the disk holds the very same text.
pub proof fn law_dirty_is_unsaved<D: Fn(&str) -> Option<String>>(
    docs: Map<Seq<char>, (Seq<char>, i64)>,
    disk_text: D,
    uri: Seq<char>,
    dirty: bool,
)
    requires
        may_be_dirty(docs, disk_text, uri, dirty),
    ensures
        dirty ==> docs.contains_key(uri) && exists|disk: Option<Seq<char>>| #[trigger]
            reads(disk_text, uri, disk) && disk != Some(docs[uri].0),
        !dirty && docs.contains_key(uri) ==> reads(disk_text, uri, Some(docs[uri].0)),
{
}

/// The symbol at a cursor comes from a buffer that the compiler holds. A declaration under the
/// cursor whose name the index does not have is a definition that the buffer alone knows, with
/// the span of its name. Without a declaration there, the symbol has the span that the compiler
/// offers for a rename, where it offers one, and else that of the identifier in the text.
pub proof fn law_symbol_at_cursor<P: PcQueryService, N: Fn(&str) -> bool>(
    docs: Map<Seq<char>, (Seq<char>, i64)>,
    pc: &P,
    is_indexed_name: N,
    uri: Seq<char>,
    line: u32,
    character: u32,
    hit: OverlayHitV,
)
    requires
        may_hit_in(docs, pc, is_indexed_name, uri, line, character, Some(hit)),
    ensures
        holds_buffer(pc, uri, true),
        docs.contains_key(uri) ==> (decl_under(
            decls_of(lines::line_list(docs[uri].0)),
            line,
            character,
        ) matches Some(decl) ==> answers(is_indexed_name, decl.name, true) || (hit.pc_only
            && hit.role == Role::Definition && hit.span == decl.span)),
        docs.contains_key(uri) && decl_under(
            decls_of(lines::line_list(docs[uri].0)),
            line,
            character,
        ) is None ==> exists|offered: Option<PcSpan>| #[trigger]
            offers(pc, uri, line, character, offered) && (match offered {
                Some(span) => hit.span == span_of(span),
                None => token_at(docs[uri].0, line, character) == Some(hit.span),
            }),
        !docs.contains_key(uri) ==> exists|offered: PcSpan| #[trigger]
            offers(pc, uri, line, character, Some(offered)) && hit.span == span_of(offered),
{
    let source = open_text(docs, uri);
    assert(may_hit(pc, is_indexed_name, source, uri, line, character, Some(hit)));
    if declared_at(source, line, character) is None {
        let offered = choose|offered: Option<PcSpan>| #[trigger]
            offers(pc, uri, line, character, offered) && may_resolve(
                pc,
                source,
                uri,
                line,
                character,
                offered,
                Some(hit),
            );
        assert(offers(pc, uri, line, character, offered));
        let defs = choose|defs: PcDefinition| #[trigger]
            defines(pc, uri, line, character, defs) && Some(hit) == resolved_hit(
                cursor_span(source, line, character, offered),
                defs,
                uri,
            );
        assert(Some(hit.span) == cursor_span(source, line, character, offered));
        if source is None {
            assert(offered is Some);
            assert(offers(pc, uri, line, character, Some(offered->0)));
        }
    }
}

} // verus!
