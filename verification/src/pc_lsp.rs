//! The presentation compiler's inlay hints, selection ranges and folding ranges in
//! the shapes of the protocol.

use vstd::prelude::*;
use vstd::string::*;

use crate::convert;
use crate::json;
use crate::json::Json;
use crate::json::JsonV;
use crate::pc_abi::FoldingRange as AbiFoldingRange;
use crate::pc_abi::InlayHint as AbiInlayHint;
use crate::pc_abi::{InlayLabelPart, Pos, Rng};
use crate::pc_convert;
use crate::protocol::{Position, Range};
use crate::text;

verus! {

/// The position of a compiler position.
pub open spec fn position_of(pos: Pos) -> Position {
    Position { line: pos.line, character: pos.character }
}

/// The range of a compiler range.
pub open spec fn range_of(rng: Rng) -> Range {
    Range {
        start: Position { line: rng.start_line, character: rng.start_character },
        end: Position { line: rng.end_line, character: rng.end_character },
    }
}

/// The compiler range of a range.
pub open spec fn rng_of(range: Range) -> Rng {
    Rng {
        start_line: range.start.line,
        start_character: range.start.character,
        end_line: range.end.line,
        end_character: range.end.character,
    }
}

/// The position of a compiler position.
pub fn lsp_position(pos: &Pos) -> (position: Position)
    ensures
        position == position_of(*pos),
{
    Position { line: pos.line, character: pos.character }
}

/// The range of a compiler range.
pub fn lsp_range(rng: &Rng) -> (range: Range)
    ensures
        range == range_of(*rng),
{
    Range {
        start: Position { line: rng.start_line, character: rng.start_character },
        end: Position { line: rng.end_line, character: rng.end_character },
    }
}

/// The compiler range of a range.
pub fn abi_rng(range: &Range) -> (rng: Rng)
    ensures
        rng == rng_of(*range),
{
    Rng {
        start_line: range.start.line,
        start_character: range.start.character,
        end_line: range.end.line,
        end_character: range.end.character,
    }
}

/// The compiler position of a position.
pub fn abi_pos(position: &Position) -> (pos: Pos)
    ensures
        pos == (Pos { line: position.line, character: position.character }),
{
    Pos { line: position.line, character: position.character }
}

/// Compiler ranges and ranges convert into each other without loss.
pub proof fn law_ranges_inverse(rng: Rng, range: Range)
    ensures
        rng_of(range_of(rng)) == rng,
        range_of(rng_of(range)) == range,
{
}

/// Whether `lsp_types::Uri` accepts a text.
pub uninterp spec fn is_uri(uri: Seq<char>) -> bool;

/// `str::parse` to an `lsp_types::Uri`: whether a text is a URI. Which texts are, is
/// named, not stated. The parser panics on a text of more than `i32::MAX` bytes.
#[verifier::external_body]
fn parses_as_uri(uri: &str) -> (valid: bool)
    requires
        text::utf8_len(uri@) <= i32::MAX,
    ensures
        valid == is_uri(uri@),
{
    uri.parse::<lsp_types::Uri>().is_ok()
}

/// The JSON that a hint carries as bytes. Bytes that are no JSON become a string.
pub open spec fn data_view(bytes: Seq<u8>) -> JsonV {
    match json::parsed(bytes) {
        Ok(value) => value,
        Err(_) => JsonV::Str(text::lossy(bytes)),
    }
}

fn data_json(bytes: &[u8]) -> (value: Json)
    ensures
        value@ == data_view(bytes@),
{
    match json::parse(bytes) {
        Ok(value) => value,
        Err(_) => Json::Str(text::lossy_text(bytes)),
    }
}

/// The JSON of a part of a label. A location whose URI is none is left out; `valid`
/// tells whether it is one.
pub open spec fn label_part_json(part: InlayLabelPart, valid: bool) -> JsonV {
    let m: pc_convert::Members = seq![("value"@, JsonV::Str(part.text@))];
    let m = pc_convert::with_some(m, "tooltip"@, pc_convert::text_value(part.tooltip));
    JsonV::Object(
        pc_convert::with_some(
            m,
            "location"@,
            match part.location {
                Some((uri, rng)) => if valid {
                    Some(convert::location_json(uri@, range_of(rng)))
                } else {
                    None
                },
                None => None,
            },
        ),
    )
}

/// Whether the location of a part of a label has a URI. A text of more than `i32::MAX`
/// bytes is none.
pub open spec fn locatable(part: InlayLabelPart) -> bool {
    match part.location {
        Some((uri, _)) => text::utf8_len(uri@) <= i32::MAX && is_uri(uri@),
        None => false,
    }
}

/// The JSON of a part of a label, where it is known whether its location has a URI.
pub fn label_part_with(part: &InlayLabelPart, valid: bool) -> (value: Json)
    ensures
        value@ == label_part_json(*part, valid),
{
    let mut members: Vec<(String, Json)> = Vec::new();
    assert(json::member_views(members@) =~= seq![]);
    json::put(&mut members, "value", json::string(part.text.as_str()));
    assert(json::member_views(members@) =~= seq![("value"@, JsonV::Str(part.text@))]);
    match &part.tooltip {
        Some(tooltip) => {
            json::put(&mut members, "tooltip", json::string(tooltip.as_str()));
        },
        None => {},
    }
    match &part.location {
        Some((uri, rng)) => {
            if valid {
                let location = convert::Location { uri: uri.clone(), range: lsp_range(rng) };
                json::put(&mut members, "location", location.to_json());
            }
        },
        None => {},
    }
    json::object(members)
}

fn label_part(part: &InlayLabelPart) -> (value: Json)
    ensures
        value@ == label_part_json(*part, locatable(*part)),
{
    let valid = match &part.location {
        Some((uri, _)) => text::byte_len(uri.as_str()) <= i32::MAX as usize && parses_as_uri(
            uri.as_str(),
        ),
        None => false,
    };
    label_part_with(part, valid)
}

/// The JSON of an inlay hint. Its kind is given where it is 1 (a type) or 2 (a
/// parameter).
pub open spec fn inlay_hint_json(hint: AbiInlayHint) -> JsonV {
    let m: pc_convert::Members = seq![
        ("position"@, convert::position_json(position_of(hint.position))),
        (
            "label"@,
            JsonV::Array(
                hint.label_parts@.map_values(
                    |part: InlayLabelPart| label_part_json(part, locatable(part)),
                ),
            ),
        ),
    ];
    let m = pc_convert::with_some(
        m,
        "kind"@,
        if hint.kind == 1 || hint.kind == 2 {
            Some(json::int_view(hint.kind as int))
        } else {
            None
        },
    );
    let m = pc_convert::with_some(
        m,
        "textEdits"@,
        match hint.text_edits {
            Some(edits) => Some(pc_convert::text_edits_json(edits@)),
            None => None,
        },
    );
    let m = pc_convert::with(m, "paddingLeft"@, JsonV::Bool(hint.padding_left));
    let m = pc_convert::with(m, "paddingRight"@, JsonV::Bool(hint.padding_right));
    JsonV::Object(
        pc_convert::with_some(
            m,
            "data"@,
            match hint.data {
                Some(bytes) => Some(data_view(bytes@)),
                None => None,
            },
        ),
    )
}

/// The JSON of an inlay hint.
pub fn inlay_hint(hint: &AbiInlayHint) -> (value: Json)
    ensures
        value@ == inlay_hint_json(*hint),
{
    let ghost all = hint.label_parts@.map_values(
        |part: InlayLabelPart| label_part_json(part, locatable(part)),
    );
    let mut parts: Vec<Json> = Vec::new();
    let mut i: usize = 0;
    assert(json::views(parts@) =~= all.take(0));
    while i < hint.label_parts.len()
        invariant
            i <= hint.label_parts@.len(),
            all == hint.label_parts@.map_values(
                |part: InlayLabelPart| label_part_json(part, locatable(part)),
            ),
            json::views(parts@) == all.take(i as int),
        decreases hint.label_parts.len() - i,
    {
        json::push(&mut parts, label_part(&hint.label_parts[i]));
        i += 1;
        assert(all.take(i as int) =~= all.take(i - 1).push(all[i - 1]));
    }
    assert(all.take(i as int) =~= all);
    let mut members: Vec<(String, Json)> = Vec::new();
    assert(json::member_views(members@) =~= seq![]);
    json::put(&mut members, "position", lsp_position(&hint.position).to_json());
    json::put(&mut members, "label", json::array(parts));
    assert(json::member_views(members@) =~= seq![
        ("position"@, convert::position_json(position_of(hint.position))),
        ("label"@, JsonV::Array(all)),
    ]);
    if hint.kind == 1 || hint.kind == 2 {
        json::put(&mut members, "kind", json::number(hint.kind as i64));
    }
    match &hint.text_edits {
        Some(edits) => {
            json::put(&mut members, "textEdits", pc_convert::text_edit_values(edits));
        },
        None => {},
    }
    json::put(&mut members, "paddingLeft", Json::Bool(hint.padding_left));
    json::put(&mut members, "paddingRight", Json::Bool(hint.padding_right));
    match &hint.data {
        Some(bytes) => {
            json::put(&mut members, "data", data_json(bytes.as_slice()));
        },
        None => {},
    }
    json::object(members)
}

/// A selection range and the wider one around it.
#[derive(Debug, PartialEq, Eq)]
pub struct SelectionRange {
    pub range: Range,
    pub parent: Option<Box<SelectionRange>>,
}

/// The ranges of a selection, from the innermost to the widest.
pub open spec fn ranges_of(selection: SelectionRange) -> Seq<Range>
    decreases selection,
{
    match selection.parent {
        None => seq![selection.range],
        Some(parent) => seq![selection.range] + ranges_of(*parent),
    }
}

/// The ranges of a selection of a chain of compiler ranges.
pub open spec fn selected(chain: Seq<Rng>, queried: Position) -> Seq<Range> {
    if chain.len() == 0 {
        seq![Range { start: queried, end: queried }]
    } else {
        chain.map_values(|rng: Rng| range_of(rng))
    }
}

/// A range has the coordinates of a compiler range.
pub open spec fn covers(range: Range, rng: Rng) -> bool {
    &&& range.start.line == rng.start_line
    &&& range.start.character == rng.start_character
    &&& range.end.line == rng.end_line
    &&& range.end.character == rng.end_character
}

/// The `n`-th wider selection around a selection, the selection itself for 0.
pub open spec fn widened(selection: SelectionRange, n: nat) -> Option<SelectionRange>
    decreases n,
{
    if n == 0 {
        Some(selection)
    } else {
        match selection.parent {
            Some(parent) => widened(*parent, (n - 1) as nat),
            None => None,
        }
    }
}

proof fn lemma_widened(selection: SelectionRange, n: nat)
    ensures
        match widened(selection, n) {
            Some(wider) => n < ranges_of(selection).len() && wider.range == ranges_of(
                selection,
            )[n as int],
            None => n >= ranges_of(selection).len(),
        },
    decreases n,
{
    lemma_ranges_of(selection);
    if n > 0 {
        match selection.parent {
            Some(parent) => {
                lemma_widened(*parent, (n - 1) as nat);
                assert(ranges_of(selection).drop_first() =~= ranges_of(*parent));
            },
            None => {},
        }
    }
}

/// A selection widens through the ranges of its chain one by one: the `n`-th wider selection
/// has the coordinates of the `n`-th range, and there is none beyond the last. An empty chain
/// selects nothing at the position that was asked for.
pub proof fn law_selection_widens(
    selection: SelectionRange,
    chain: Seq<Rng>,
    queried: Position,
    n: nat,
)
    requires
        ranges_of(selection) == selected(chain, queried),
    ensures
        chain.len() > 0 ==> match widened(selection, n) {
            Some(wider) => n < chain.len() && covers(wider.range, chain[n as int]),
            None => n >= chain.len(),
        },
        chain.len() == 0 ==> selection.range.start == queried && selection.range.end == queried
            && selection.parent is None,
{
    lemma_widened(selection, n);
    lemma_widened(selection, 0);
    lemma_widened(selection, 1);
    reveal_with_fuel(widened, 2);
}

/// The linked selection of a chain of ranges, innermost first. An empty chain
/// becomes the empty range at the position that was asked for.
pub fn selection_chain(chain: &[Rng], queried: &Position) -> (selection: SelectionRange)
    ensures
        ranges_of(selection) == selected(chain@, *queried),
{
    if chain.len() == 0 {
        return SelectionRange { range: Range { start: *queried, end: *queried }, parent: None };
    }
    let ghost all = chain@.map_values(|rng: Rng| range_of(rng));
    let mut i: usize = chain.len() - 1;
    let mut node = SelectionRange { range: lsp_range(&chain[i]), parent: None };
    assert(ranges_of(node) =~= all.skip(i as int));
    while i > 0
        invariant
            i < chain@.len(),
            all == chain@.map_values(|rng: Rng| range_of(rng)),
            ranges_of(node) == all.skip(i as int),
        decreases i,
    {
        i -= 1;
        let ghost wider = node;
        node = SelectionRange { range: lsp_range(&chain[i]), parent: Some(Box::new(node)) };
        assert(ranges_of(node) == seq![range_of(chain@[i as int])] + ranges_of(wider));
        assert(all.skip(i as int) =~= seq![all[i as int]] + all.skip(i + 1));
    }
    assert(all.skip(0) =~= all);
    node
}

/// The JSON of a selection with the given ranges, innermost first.
pub open spec fn selection_json(ranges: Seq<Range>) -> JsonV
    decreases ranges.len(),
{
    if ranges.len() <= 1 {
        JsonV::Object(seq![("range"@, convert::range_json(ranges[0]))])
    } else {
        JsonV::Object(
            seq![
                ("range"@, convert::range_json(ranges[0])),
                ("parent"@, selection_json(ranges.drop_first())),
            ],
        )
    }
}

proof fn lemma_ranges_of(selection: SelectionRange)
    ensures
        ranges_of(selection).len() > 0,
{
}

impl SelectionRange {
    /// The JSON of the selection.
    pub fn to_json(&self) -> (value: Json)
        ensures
            value@ == selection_json(ranges_of(*self)),
        decreases self,
    {
        let mut members: Vec<(String, Json)> = Vec::new();
        assert(json::member_views(members@) =~= seq![]);
        json::put(&mut members, "range", self.range.to_json());
        match &self.parent {
            Some(parent) => {
                proof {
                    lemma_ranges_of(**parent);
                    assert(ranges_of(*self).drop_first() =~= ranges_of(**parent));
                }
                json::put(&mut members, "parent", parent.to_json());
            },
            None => {},
        }
        let value = json::object(members);
        assert(value@->Object_0 =~= selection_json(ranges_of(*self))->Object_0);
        value
    }
}

/// The kind of a folding range.
#[derive(Clone, Copy, Debug, PartialEq, Eq, Structural)]
pub enum FoldingRangeKind {
    Comment,
    Imports,
    Region,
}

/// A folding range.
#[derive(Clone, Copy, Debug, PartialEq, Eq, Structural)]
pub struct FoldingRange {
    pub start_line: u32,
    pub start_character: u32,
    pub end_line: u32,
    pub end_character: u32,
    pub kind: Option<FoldingRangeKind>,
}

/// The kind that an ordinal stands for.
pub open spec fn folding_kind(ordinal: i32) -> Option<FoldingRangeKind> {
    if ordinal == 1 {
        Some(FoldingRangeKind::Comment)
    } else if ordinal == 2 {
        Some(FoldingRangeKind::Imports)
    } else if ordinal == 3 {
        Some(FoldingRangeKind::Region)
    } else {
        None
    }
}

/// The folding range of a compiler folding range.
pub fn folding_range(folding: &AbiFoldingRange) -> (range: FoldingRange)
    ensures
        range == (FoldingRange {
            start_line: folding.range.start_line,
            start_character: folding.range.start_character,
            end_line: folding.range.end_line,
            end_character: folding.range.end_character,
            kind: folding_kind(folding.kind),
        }),
{
    FoldingRange {
        start_line: folding.range.start_line,
        start_character: folding.range.start_character,
        end_line: folding.range.end_line,
        end_character: folding.range.end_character,
        kind: if folding.kind == 1 {
            Some(FoldingRangeKind::Comment)
        } else if folding.kind == 2 {
            Some(FoldingRangeKind::Imports)
        } else if folding.kind == 3 {
            Some(FoldingRangeKind::Region)
        } else {
            None
        },
    }
}

/// The name of a folding kind.
pub open spec fn folding_kind_name(kind: FoldingRangeKind) -> Seq<char> {
    match kind {
        FoldingRangeKind::Comment => "comment"@,
        FoldingRangeKind::Imports => "imports"@,
        FoldingRangeKind::Region => "region"@,
    }
}

/// The JSON of a folding range.
pub open spec fn folding_range_json(range: FoldingRange) -> JsonV {
    JsonV::Object(
        pc_convert::with_some(
            seq![
                ("startLine"@, json::int_view(range.start_line as int)),
                ("startCharacter"@, json::int_view(range.start_character as int)),
                ("endLine"@, json::int_view(range.end_line as int)),
                ("endCharacter"@, json::int_view(range.end_character as int)),
            ],
            "kind"@,
            match range.kind {
                Some(kind) => Some(JsonV::Str(folding_kind_name(kind))),
                None => None,
            },
        ),
    )
}

impl FoldingRange {
    /// The JSON of the folding range.
    pub fn to_json(&self) -> (value: Json)
        ensures
            value@ == folding_range_json(*self),
    {
        let mut members: Vec<(String, Json)> = Vec::new();
        assert(json::member_views(members@) =~= seq![]);
        json::put(&mut members, "startLine", json::natural(self.start_line as u64));
        json::put(&mut members, "startCharacter", json::natural(self.start_character as u64));
        json::put(&mut members, "endLine", json::natural(self.end_line as u64));
        json::put(&mut members, "endCharacter", json::natural(self.end_character as u64));
        match self.kind {
            Some(FoldingRangeKind::Comment) => {
                json::put(&mut members, "kind", json::string("comment"));
            },
            Some(FoldingRangeKind::Imports) => {
                json::put(&mut members, "kind", json::string("imports"));
            },
            Some(FoldingRangeKind::Region) => {
                json::put(&mut members, "kind", json::string("region"));
            },
            None => {},
        }
        let value = json::object(members);
        assert(value@->Object_0 =~= folding_range_json(*self)->Object_0);
        value
    }
}

/// A JSON object shows a part of a label: its text, its tooltip, and its location where that has
/// a URI.
pub open spec fn shows_part(value: JsonV, part: InlayLabelPart) -> bool {
    &&& value.get("value"@) == Some(JsonV::Str(part.text@))
    &&& pc_convert::shows_text(value.get("tooltip"@), part.tooltip)
    &&& match part.location {
        Some((uri, rng)) => if text::utf8_len(uri@) <= i32::MAX && is_uri(uri@) {
            value.get("location"@) matches Some(location) && location.get("uri"@) == Some(
                JsonV::Str(uri@),
            ) && pc_convert::shows_rng(location.get("range"@), rng)
        } else {
            value.get("location"@) is None
        },
        None => value.get("location"@) is None,
    }
}

proof fn lemma_shows_range(rng: Rng)
    ensures
        pc_convert::shows_rng(Some(convert::range_json(range_of(rng))), rng),
{
    broadcast use json::lemma_member_short;

    reveal_strlit("line");
    reveal_strlit("character");
    reveal_strlit("start");
    reveal_strlit("end");
    assert("line"@.len() != "character"@.len());
    assert("start"@.len() != "end"@.len());
}

proof fn lemma_shows_part(part: InlayLabelPart)
    ensures
        shows_part(label_part_json(part, locatable(part)), part),
{
    broadcast use {json::lemma_member_short, pc_convert::lemma_with_some};

    reveal_strlit("value");
    reveal_strlit("tooltip");
    reveal_strlit("location");
    reveal_strlit("uri");
    reveal_strlit("range");
    assert("value"@.len() != "tooltip"@.len());
    assert("tooltip"@.len() != "location"@.len());
    assert("uri"@.len() != "range"@.len());
    match part.location {
        Some((uri, rng)) => lemma_shows_range(rng),
        None => {},
    }
}

/// The JSON of an inlay hint shows its position, each part of its label in order, its kind where
/// the protocol has it, all of its edits, its padding and its data: JSON as it is, and other
/// bytes as a text.
pub proof fn law_hint_shown(hint: AbiInlayHint)
    ensures
        inlay_hint_json(hint).get("position"@) matches Some(value) && pc_convert::shows_point(
            value,
            hint.position.line,
            hint.position.character,
        ),
        inlay_hint_json(hint).get("label"@) matches Some(JsonV::Array(items)) && items.len()
            == hint.label_parts@.len() && forall|k: int|
            0 <= k < items.len() ==> shows_part(#[trigger] items[k], hint.label_parts@[k]),
        inlay_hint_json(hint).get("kind"@) == (if hint.kind == 1 || hint.kind == 2 {
            Some(json::int_view(hint.kind as int))
        } else {
            None
        }),
        pc_convert::shows_edits(inlay_hint_json(hint).get("textEdits"@), hint.text_edits),
        inlay_hint_json(hint).get("paddingLeft"@) == Some(JsonV::Bool(hint.padding_left)),
        inlay_hint_json(hint).get("paddingRight"@) == Some(JsonV::Bool(hint.padding_right)),
        match hint.data {
            Some(bytes) => match json::parsed(bytes@) {
                Ok(value) => inlay_hint_json(hint).get("data"@) == Some(value),
                Err(_) => inlay_hint_json(hint).get("data"@) == Some(
                    JsonV::Str(text::lossy(bytes@)),
                ),
            },
            None => inlay_hint_json(hint).get("data"@) is None,
        },
{
    lemma_hint_members(hint);
    let all = hint.label_parts@.map_values(
        |part: InlayLabelPart| label_part_json(part, locatable(part)),
    );
    assert forall|k: int| 0 <= k < all.len() implies shows_part(
        #[trigger] all[k],
        hint.label_parts@[k],
    ) by {
        lemma_shows_part(hint.label_parts@[k]);
    }
    match hint.text_edits {
        Some(edits) => pc_convert::law_edits_shown(edits),
        None => {},
    }
    assert(pc_convert::shows_point(
        convert::position_json(position_of(hint.position)),
        hint.position.line,
        hint.position.character,
    )) by {
        broadcast use json::lemma_member_short;

        reveal_strlit("line");
        reveal_strlit("character");
        assert("line"@.len() != "character"@.len());
    }
}

proof fn lemma_hint_members(hint: AbiInlayHint)
    ensures
        inlay_hint_json(hint).get("position"@) == Some(
            convert::position_json(position_of(hint.position)),
        ),
        inlay_hint_json(hint).get("label"@) == Some(
            JsonV::Array(
                hint.label_parts@.map_values(
                    |part: InlayLabelPart| label_part_json(part, locatable(part)),
                ),
            ),
        ),
        inlay_hint_json(hint).get("kind"@) == (if hint.kind == 1 || hint.kind == 2 {
            Some(json::int_view(hint.kind as int))
        } else {
            None
        }),
        inlay_hint_json(hint).get("textEdits"@) == (match hint.text_edits {
            Some(edits) => Some(pc_convert::text_edits_json(edits@)),
            None => None,
        }),
        inlay_hint_json(hint).get("paddingLeft"@) == Some(JsonV::Bool(hint.padding_left)),
        inlay_hint_json(hint).get("paddingRight"@) == Some(JsonV::Bool(hint.padding_right)),
        inlay_hint_json(hint).get("data"@) == (match hint.data {
            Some(bytes) => Some(data_view(bytes@)),
            None => None,
        }),
{
    broadcast use {
        json::lemma_member_short,
        json::lemma_member_push,
        pc_convert::lemma_with_some,
    };

    reveal_strlit("position");
    reveal_strlit("label");
    reveal_strlit("kind");
    reveal_strlit("textEdits");
    reveal_strlit("paddingLeft");
    reveal_strlit("paddingRight");
    reveal_strlit("data");
    assert("position"@.len() == 8 && "label"@.len() == 5 && "textEdits"@.len() == 9);
    assert("paddingLeft"@.len() == 11 && "paddingRight"@.len() == 12);
    assert("kind"@.len() == 4 && "data"@.len() == 4 && "kind"@[0] != "data"@[0]);
}

/// The JSON of a selection shows its range, and the wider selection around it where there is
/// one.
pub proof fn law_selection_shown(selection: SelectionRange)
    ensures
        selection_json(ranges_of(selection)).get("range"@) matches Some(value)
            && convert::shows_range(value, selection.range),
        selection_json(ranges_of(selection)).get("parent"@) == (match selection.parent {
            Some(parent) => Some(selection_json(ranges_of(*parent))),
            None => None,
        }),
{
    broadcast use json::lemma_member_short;

    reveal_strlit("range");
    reveal_strlit("parent");
    assert("range"@.len() != "parent"@.len());
    convert::law_places_shown(
        convert::Location { uri: arbitrary(), range: selection.range },
        arbitrary(),
    );
    match selection.parent {
        Some(parent) => {
            lemma_ranges_of(*parent);
            assert(ranges_of(selection).drop_first() =~= ranges_of(*parent));
        },
        None => {},
    }
}

/// The JSON of a folding range shows its coordinates, and the protocol's name for its kind where
/// it has one: 1 is a comment, 2 are imports, 3 is a region.
pub proof fn law_folding_shown(range: FoldingRange, ordinal: i32)
    ensures
        folding_range_json(range).get("startLine"@) == Some(
            json::int_view(range.start_line as int),
        ),
        folding_range_json(range).get("startCharacter"@) == Some(
            json::int_view(range.start_character as int),
        ),
        folding_range_json(range).get("endLine"@) == Some(json::int_view(range.end_line as int)),
        folding_range_json(range).get("endCharacter"@) == Some(
            json::int_view(range.end_character as int),
        ),
        range.kind is None ==> folding_range_json(range).get("kind"@) is None,
        ordinal == 1 && range.kind == folding_kind(ordinal) ==> folding_range_json(range).get(
            "kind"@,
        ) == Some(JsonV::Str("comment"@)),
        ordinal == 2 && range.kind == folding_kind(ordinal) ==> folding_range_json(range).get(
            "kind"@,
        ) == Some(JsonV::Str("imports"@)),
        ordinal == 3 && range.kind == folding_kind(ordinal) ==> folding_range_json(range).get(
            "kind"@,
        ) == Some(JsonV::Str("region"@)),
        ordinal < 1 || ordinal > 3 ==> folding_kind(ordinal) is None,
{
    broadcast use {json::lemma_member_short, pc_convert::lemma_with_some};

    reveal_strlit("startLine");
    reveal_strlit("startCharacter");
    reveal_strlit("endLine");
    reveal_strlit("endCharacter");
    reveal_strlit("kind");
    assert("startLine"@.len() == 9 && "startCharacter"@.len() == 14 && "endLine"@.len() == 7);
    assert("endCharacter"@.len() == 12 && "kind"@.len() == 4);
}

} // verus!
