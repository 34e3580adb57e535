//! Reading the parameters of messages.

use vstd::prelude::*;
use vstd::string::*;

use crate::config;
use crate::convert;
use crate::documents::ContentChange;
use crate::json;
use crate::json::Json;
use crate::json::JsonV;
use crate::numerals;
use crate::protocol::{Position, Range};
use crate::text;

verus! {

/// The first item of an array.
pub open spec fn first_item(value: JsonV) -> Option<JsonV> {
    match value {
        JsonV::Array(items) => if items.len() > 0 {
            Some(items[0])
        } else {
            None
        },
        _ => None,
    }
}

fn first(value: &Json) -> (item: Option<&Json>)
    ensures
        match item {
            Some(item) => first_item(value@) == Some(item@),
            None => first_item(value@) is None,
        },
{
    broadcast use json::lemma_views;

    match value {
        Json::Array(items) => {
            if items.len() > 0 {
                assert(value@ == JsonV::Array(json::views(items@)));
                Some(&items[0])
            } else {
                None
            }
        },
        _ => None,
    }
}

/// The string that a member of a member holds.
pub open spec fn nested_text(value: JsonV, outer: Seq<char>, inner: Seq<char>) -> Option<
    Seq<char>,
> {
    match value.get(outer) {
        Some(found) => config::string_member(found, inner),
        None => None,
    }
}

fn nested_string(value: &Json, outer: &str, inner: &str) -> (found: Option<String>)
    ensures
        match found {
            Some(s) => nested_text(value@, outer@, inner@) == Some(s@),
            None => nested_text(value@, outer@, inner@) is None,
        },
{
    match value.get(outer) {
        Some(found) => config::string_of(found, inner),
        None => None,
    }
}

/// The URI of the root of the workspace in the parameters of `initialize`: `rootUri`,
/// or that of the first workspace folder.
pub open spec fn root_uri_in(params: JsonV) -> Option<Seq<char>> {
    match config::string_member(params, "rootUri"@) {
        Some(uri) => Some(uri),
        None => match params.get("workspaceFolders"@) {
            Some(folders) => match first_item(folders) {
                Some(folder) => config::string_member(folder, "uri"@),
                None => None,
            },
            None => None,
        },
    }
}

/// The URI of the root of the workspace in the parameters of `initialize`.
pub fn root_uri(params: &Json) -> (uri: Option<String>)
    ensures
        match uri {
            Some(uri) => root_uri_in(params@) == Some(uri@),
            None => root_uri_in(params@) is None,
        },
{
    match config::string_of(params, "rootUri") {
        Some(uri) => Some(uri),
        None => match params.get("workspaceFolders") {
            Some(folders) => match first(folders) {
                Some(folder) => config::string_of(folder, "uri"),
                None => None,
            },
            None => None,
        },
    }
}

/// The URI of the document that a notification speaks of, as it was sent.
pub open spec fn document_uri_in(params: JsonV) -> Option<Seq<char>> {
    nested_text(params, "textDocument"@, "uri"@)
}

/// The URI of the document that a notification speaks of, as it was sent.
pub fn document_uri(params: &Json) -> (uri: Option<String>)
    ensures
        match uri {
            Some(uri) => document_uri_in(params@) == Some(uri@),
            None => document_uri_in(params@) is None,
        },
{
    nested_string(params, "textDocument", "uri")
}

/// The text of the document that a notification opens.
pub fn document_text(params: &Json) -> (found: Option<String>)
    ensures
        match found {
            Some(found) => nested_text(params@, "textDocument"@, "text"@) == Some(found@),
            None => nested_text(params@, "textDocument"@, "text"@) is None,
        },
{
    nested_string(params, "textDocument", "text")
}

/// The version of the document that a notification speaks of.
pub open spec fn document_version_in(params: JsonV) -> Option<int> {
    match params.get("textDocument"@) {
        Some(document) => match document.get("version"@) {
            Some(JsonV::Number(n)) => numerals::signed_value(n),
            _ => None,
        },
        None => None,
    }
}

/// The version of the document that a notification speaks of.
pub fn document_version(params: &Json) -> (version: Option<i64>)
    ensures
        match version {
            Some(version) => document_version_in(params@) == Some(version as int),
            None => document_version_in(params@) is None,
        },
{
    match params.get("textDocument") {
        Some(document) => match document.get("version") {
            Some(Json::Number(n)) => numerals::parse_signed(n.as_str()),
            _ => None,
        },
        None => None,
    }
}

/// The 32-bit number that a JSON value denotes.
pub open spec fn number_in(value: JsonV) -> Option<nat> {
    match value {
        JsonV::Number(n) => if numerals::is_numeral(n) && numerals::value(n) <= u32::MAX {
            Some(numerals::value(n))
        } else {
            None
        },
        _ => None,
    }
}

fn number(value: &Json) -> (found: Option<u32>)
    ensures
        match found {
            Some(n) => number_in(value@) == Some(n as nat),
            None => number_in(value@) is None,
        },
{
    match value {
        Json::Number(n) => {
            let chars = text::chars_of(n.as_str());
            match numerals::parse_digits(chars.as_slice()) {
                Some(v) => if v <= u32::MAX as u64 {
                    Some(v as u32)
                } else {
                    None
                },
                None => None,
            }
        },
        _ => None,
    }
}

/// The value of one of the two fields of a record: a member of an object, or an item
/// of an array of two.
pub open spec fn field_in(value: JsonV, name: Seq<char>, index: int) -> Option<JsonV> {
    match value {
        JsonV::Object(members) => json::member(members, name),
        JsonV::Array(items) => if items.len() == 2 {
            Some(items[index])
        } else {
            None
        },
        _ => None,
    }
}

fn field<'a>(value: &'a Json, name: &str, index: usize) -> (found: Option<&'a Json>)
    requires
        index < 2,
    ensures
        match found {
            Some(found) => field_in(value@, name@, index as int) == Some(found@),
            None => field_in(value@, name@, index as int) is None,
        },
{
    broadcast use json::lemma_views;

    match value {
        Json::Object(_) => value.get(name),
        Json::Array(items) => {
            assert(value@ == JsonV::Array(json::views(items@)));
            if items.len() == 2 {
                Some(&items[index])
            } else {
                None
            }
        },
        _ => None,
    }
}

/// The position that a JSON value denotes.
pub open spec fn position_in(value: JsonV) -> Option<Position> {
    match field_in(value, "line"@, 0) {
        Some(line) => match field_in(value, "character"@, 1) {
            Some(character) => match number_in(line) {
                Some(line) => match number_in(character) {
                    Some(character) => Some(
                        Position { line: line as u32, character: character as u32 },
                    ),
                    None => None,
                },
                None => None,
            },
            None => None,
        },
        None => None,
    }
}

/// The position that a JSON value denotes.
pub fn position(value: &Json) -> (found: Option<Position>)
    ensures
        found == position_in(value@),
{
    match field(value, "line", 0) {
        Some(line) => match field(value, "character", 1) {
            Some(character) => match number(line) {
                Some(line) => match number(character) {
                    Some(character) => Some(Position { line, character }),
                    None => None,
                },
                None => None,
            },
            None => None,
        },
        None => None,
    }
}

/// The range that a JSON value denotes.
pub open spec fn range_in(value: JsonV) -> Option<Range> {
    match field_in(value, "start"@, 0) {
        Some(start) => match field_in(value, "end"@, 1) {
            Some(end) => match position_in(start) {
                Some(start) => match position_in(end) {
                    Some(end) => Some(Range { start, end }),
                    None => None,
                },
                None => None,
            },
            None => None,
        },
        None => None,
    }
}

/// The range that a JSON value denotes.
pub fn range(value: &Json) -> (found: Option<Range>)
    ensures
        found == range_in(value@),
{
    match field(value, "start", 0) {
        Some(start) => match field(value, "end", 1) {
            Some(end) => match position(start) {
                Some(start) => match position(end) {
                    Some(end) => Some(Range { start, end }),
                    None => None,
                },
                None => None,
            },
            None => None,
        },
        None => None,
    }
}

/// The range of a change event: none where the event has none or a null one. A
/// malformed one makes the whole event malformed.
pub open spec fn change_range_in(value: JsonV) -> Option<Option<Range>> {
    match field_in(value, "range"@, 0) {
        None => Some(None),
        Some(JsonV::Null) => Some(None),
        Some(found) => match range_in(found) {
            Some(range) => Some(Some(range)),
            None => None,
        },
    }
}

/// The change event that a JSON value denotes: its range and its text.
pub open spec fn change_in(value: JsonV) -> Option<(Option<Range>, Seq<char>)> {
    match field_in(value, "text"@, 1) {
        Some(JsonV::Str(new)) => match change_range_in(value) {
            Some(range) => Some((range, new)),
            None => None,
        },
        _ => None,
    }
}

/// The change event that a JSON value denotes.
pub fn content_change(value: &Json) -> (found: Option<ContentChange>)
    ensures
        match found {
            Some(change) => change_in(value@) == Some((change.range, change.text@)),
            None => change_in(value@) is None,
        },
{
    let new = match field(value, "text", 1) {
        Some(Json::Str(new)) => new.clone(),
        _ => {
            return None;
        },
    };
    match field(value, "range", 0) {
        None => Some(ContentChange { range: None, text: new }),
        Some(Json::Null) => Some(ContentChange { range: None, text: new }),
        Some(found) => match range(found) {
            Some(range) => Some(ContentChange { range: Some(range), text: new }),
            None => None,
        },
    }
}

/// The ranges and texts of a list of change events.
pub open spec fn change_views(changes: Seq<ContentChange>) -> Seq<(Option<Range>, Seq<char>)> {
    changes.map_values(|change: ContentChange| (change.range, change.text@))
}

/// The change events that a list of JSON values denotes, if each denotes one.
pub open spec fn changes_in(items: Seq<JsonV>) -> Option<Seq<(Option<Range>, Seq<char>)>>
    decreases items.len(),
{
    if items.len() == 0 {
        Some(seq![])
    } else {
        match changes_in(items.drop_last()) {
            Some(changes) => match change_in(items.last()) {
                Some(change) => Some(changes.push(change)),
                None => None,
            },
            None => None,
        }
    }
}

/// The change events of a `didChange` notification.
pub open spec fn content_changes_in(params: JsonV) -> Option<Seq<(Option<Range>, Seq<char>)>> {
    match params.get("contentChanges"@) {
        Some(JsonV::Array(items)) => changes_in(items),
        _ => None,
    }
}

proof fn lemma_malformed(items: Seq<JsonV>, k: int)
    requires
        0 <= k < items.len(),
        change_in(items[k]) is None,
    ensures
        changes_in(items) is None,
    decreases items.len(),
{
    if k < items.len() - 1 {
        lemma_malformed(items.drop_last(), k);
    }
}

/// The change events of a `didChange` notification: none where one is malformed.
pub fn content_changes(params: &Json) -> (found: Option<Vec<ContentChange>>)
    ensures
        match found {
            Some(changes) => content_changes_in(params@) == Some(change_views(changes@)),
            None => content_changes_in(params@) is None,
        },
{
    broadcast use json::lemma_views;

    let items = match params.get("contentChanges") {
        Some(Json::Array(items)) => items,
        _ => {
            return None;
        },
    };
    let ghost all = json::views(items@);
    let mut changes: Vec<ContentChange> = Vec::new();
    let mut i: usize = 0;
    assert(all.take(0) =~= seq![]);
    assert(change_views(changes@) =~= seq![]);
    while i < items.len()
        invariant
            i <= items@.len(),
            all == json::views(items@),
            content_changes_in(params@) == changes_in(all),
            changes_in(all.take(i as int)) == Some(change_views(changes@)),
        decreases items.len() - i,
    {
        assert(all[i as int] == items@[i as int]@);
        match content_change(&items[i]) {
            Some(change) => {
                let ghost before = change_views(changes@);
                let ghost v = (change.range, change.text@);
                changes.push(change);
                assert(change_views(changes@) =~= before.push(v));
                assert(all.take(i + 1).drop_last() =~= all.take(i as int));
            },
            None => {
                proof {
                    lemma_malformed(all, i as int);
                }
                return None;
            },
        }
        i += 1;
    }
    assert(all.take(i as int) =~= all);
    Some(changes)
}

/// Whether the `doctor` command asks for JSON: `{"json": true}` as its first
/// argument.
pub open spec fn asks_for_json(params: JsonV) -> bool {
    match params.get("arguments"@) {
        Some(arguments) => match first_item(arguments) {
            Some(argument) => argument.get("json"@) == Some(JsonV::Bool(true)),
            None => false,
        },
        None => false,
    }
}

/// Whether the `doctor` command asks for JSON.
pub fn doctor_json_requested(params: &Json) -> (requested: bool)
    ensures
        requested == asks_for_json(params@),
{
    match params.get("arguments") {
        Some(arguments) => match first(arguments) {
            Some(argument) => match argument.get("json") {
                Some(Json::Bool(b)) => *b,
                _ => false,
            },
            None => false,
        },
        None => false,
    }
}

proof fn lemma_number_read(n: u32)
    ensures
        number_in(json::int_view(n as int)) == Some(n as nat),
{
    numerals::lemma_decimal_value(n as nat);
}

/// Reading gives back what was written: the position and the range of their own JSON are they
/// themselves, also where the JSON is an array of the two parts.
pub proof fn law_range_read_back(range: Range)
    ensures
        position_in(convert::position_json(range.start)) == Some(range.start),
        range_in(convert::range_json(range)) == Some(range),
        position_in(
            JsonV::Array(
                seq![
                    json::int_view(range.start.line as int),
                    json::int_view(range.start.character as int),
                ],
            ),
        ) == Some(range.start),
        range_in(
            JsonV::Array(
                seq![convert::position_json(range.start), convert::position_json(range.end)],
            ),
        ) == Some(range),
{
    broadcast use json::lemma_member_short;

    reveal_strlit("line");
    reveal_strlit("character");
    reveal_strlit("start");
    reveal_strlit("end");
    assert("line"@.len() == 4 && "character"@.len() == 9);
    assert("start"@.len() == 5 && "end"@.len() == 3);
    lemma_number_read(range.start.line);
    lemma_number_read(range.start.character);
    lemma_number_read(range.end.line);
    lemma_number_read(range.end.character);
}

/// A JSON number that is not a row of digits, or that does not fit in 32 bits, is no coordinate.
pub proof fn law_coordinate_fits(value: JsonV)
    ensures
        match number_in(value) {
            Some(n) => n <= u32::MAX && (value matches JsonV::Number(s) && numerals::is_numeral(s)
                && numerals::value(s) == n),
            None => value matches JsonV::Number(s) ==> !numerals::is_numeral(s)
                || numerals::value(s) > u32::MAX,
        },
{
}

/// A change event is read as it was sent: with its text, and with its range where it has one. An
/// event without a text, or with a range that is none, is malformed.
pub proof fn law_change_read(event: JsonV, new: Seq<char>, range: Range)
    requires
        event is Object,
    ensures
        event.get("text"@) == Some(JsonV::Str(new)) && event.get("range"@) == Some(
            convert::range_json(range),
        ) ==> change_in(event) == Some((Some(range), new)),
        event.get("text"@) == Some(JsonV::Str(new)) && (event.get("range"@) is None || event.get(
            "range"@,
        ) == Some(JsonV::Null)) ==> change_in(event) == Some((None::<Range>, new)),
        !(event.get("text"@) matches Some(JsonV::Str(_))) ==> change_in(event) is None,
        event.get("range"@) matches Some(found) && !(found is Null) && range_in(found) is None
            ==> change_in(event) is None,
{
    law_range_read_back(range);
}

/// Every change event of a notification is read, in order; one that is malformed makes all of
/// them malformed.
pub proof fn law_changes_read(items: Seq<JsonV>)
    ensures
        match changes_in(items) {
            Some(changes) => changes.len() == items.len() && forall|k: int|
                0 <= k < items.len() ==> Some(changes[k]) == change_in(#[trigger] items[k]),
            None => exists|k: int| 0 <= k < items.len() && change_in(#[trigger] items[k]) is None,
        },
    decreases items.len(),
{
    if items.len() > 0 {
        let rest = items.drop_last();
        law_changes_read(rest);
        match changes_in(rest) {
            Some(before) => {
                match changes_in(items) {
                    Some(changes) => {
                        assert forall|k: int| 0 <= k < items.len() implies Some(changes[k])
                            == change_in(#[trigger] items[k]) by {
                            if k < rest.len() {
                                assert(rest[k] == items[k]);
                            }
                        }
                    },
                    None => {
                        assert(change_in(items[items.len() - 1]) is None);
                    },
                }
            },
            None => {
                let k = choose|k: int| 0 <= k < rest.len() && change_in(#[trigger] rest[k]) is None;
                assert(items[k] == rest[k]);
            },
        }
    }
}

/// The parameters of a notification name its document, with its URI, text and version as they
/// were sent; its change events are those of `contentChanges`.
pub proof fn law_document_read(params: JsonV, document: JsonV, s: Seq<char>, version: i64)
    requires
        params.get("textDocument"@) == Some(document),
    ensures
        document.get("uri"@) == Some(JsonV::Str(s)) ==> document_uri_in(params) == Some(s),
        !(document.get("uri"@) matches Some(JsonV::Str(_))) ==> document_uri_in(params) is None,
        document.get("text"@) == Some(JsonV::Str(s)) ==> nested_text(
            params,
            "textDocument"@,
            "text"@,
        ) == Some(s),
        document.get("version"@) == Some(json::int_view(version as int)) ==> document_version_in(
            params,
        ) == Some(version as int),
        params.get("contentChanges"@) matches Some(JsonV::Array(items)) ==> content_changes_in(
            params,
        ) == changes_in(items),
{
    numerals::law_numeral_round_trip(version);
}

/// Parameters without a document name none.
pub proof fn law_no_document(params: JsonV)
    requires
        params.get("textDocument"@) is None,
    ensures
        document_uri_in(params) is None,
        nested_text(params, "textDocument"@, "text"@) is None,
        document_version_in(params) is None,
{
}

/// The root of the workspace is `rootUri` where that is a string, and else the URI of the first
/// of the workspace folders.
pub proof fn law_root_read(params: JsonV, folders: Seq<JsonV>, uri: Seq<char>)
    ensures
        params.get("rootUri"@) == Some(JsonV::Str(uri)) ==> root_uri_in(params) == Some(uri),
        !(params.get("rootUri"@) matches Some(JsonV::Str(_))) && params.get("workspaceFolders"@)
            == Some(JsonV::Array(folders)) && folders.len() > 0 && folders[0].get("uri"@) == Some(
            JsonV::Str(uri),
        ) ==> root_uri_in(params) == Some(uri),
        !(params.get("rootUri"@) matches Some(JsonV::Str(_))) && (params.get(
            "workspaceFolders"@,
        ) is None || params.get("workspaceFolders"@) == Some(JsonV::Array(Seq::empty())))
            ==> root_uri_in(params) is None,
{
}

/// The `doctor` command asks for JSON where its first argument has `json` set to true, and only
/// there.
pub proof fn law_json_asked_for(params: JsonV, arguments: Seq<JsonV>)
    ensures
        params.get("arguments"@) == Some(JsonV::Array(arguments)) ==> (asks_for_json(params)
            <==> arguments.len() > 0 && arguments[0].get("json"@) == Some(JsonV::Bool(true))),
        !(params.get("arguments"@) matches Some(JsonV::Array(_))) ==> !asks_for_json(params),
{
}

/// An array of any other length than two is no position and no range.
pub proof fn law_pairs_only(items: Seq<JsonV>)
    requires
        items.len() != 2,
    ensures
        position_in(JsonV::Array(items)) is None,
        range_in(JsonV::Array(items)) is None,
{
}

} // verus!
