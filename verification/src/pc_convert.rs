//! The JSON of the presentation compiler's answers. A field that is absent is left
//! out, not null; a list that is present but empty stays.

use vstd::prelude::*;
use vstd::string::*;

use crate::json;
use crate::json::Json;
use crate::json::JsonV;
use crate::pc_abi::{
    Command, CompletionApplyKind, CompletionEdit, CompletionItem, CompletionItemDefaults,
    CompletionList, Documentation, EditRange, Hover, HoverContents, HoverResult, LabelDetails,
    MarkedStringItem, MarkupContent, ParameterInfo, ParameterLabel, Rng, SignatureHelp,
    SignatureInfo, TextEdit,
};
use crate::text;

verus! {

/// The members of an object, in order.
pub type Members = Seq<(Seq<char>, JsonV)>;

/// One member more.
pub open spec fn with(members: Members, name: Seq<char>, value: JsonV) -> Members {
    members.push((name, value))
}

/// One member more, unless it is absent.
pub open spec fn with_some(members: Members, name: Seq<char>, value: Option<JsonV>) -> Members {
    match value {
        Some(value) => members.push((name, value)),
        None => members,
    }
}

/// An optional string.
pub open spec fn text_value(value: Option<String>) -> Option<JsonV> {
    match value {
        Some(s) => Some(JsonV::Str(s@)),
        None => None,
    }
}

/// An optional number.
pub open spec fn int_value(value: Option<i32>) -> Option<JsonV> {
    match value {
        Some(n) => Some(json::int_view(n as int)),
        None => None,
    }
}

/// An optional truth value.
pub open spec fn bool_value(value: Option<bool>) -> Option<JsonV> {
    match value {
        Some(b) => Some(JsonV::Bool(b)),
        None => None,
    }
}

/// JSON that is carried as bytes; null where the bytes are no JSON.
pub open spec fn opaque(bytes: Seq<u8>) -> JsonV {
    match json::parsed(bytes) {
        Ok(value) => value,
        Err(_) => JsonV::Null,
    }
}

/// Optional JSON that is carried as bytes.
pub open spec fn opaque_value(bytes: Option<Vec<u8>>) -> Option<JsonV> {
    match bytes {
        Some(bytes) => Some(opaque(bytes@)),
        None => None,
    }
}

/// An optional list of strings.
pub open spec fn texts_value(list: Option<Vec<String>>) -> Option<JsonV> {
    match list {
        Some(list) => Some(json::strings_view(text::texts(list@))),
        None => None,
    }
}

/// The JSON of a range.
pub open spec fn rng_json(range: Rng) -> JsonV {
    JsonV::Object(
        seq![
            ("start"@, point_json(range.start_line, range.start_character)),
            ("end"@, point_json(range.end_line, range.end_character)),
        ],
    )
}

/// The JSON of a position.
pub open spec fn point_json(line: u32, character: u32) -> JsonV {
    JsonV::Object(
        seq![
            ("line"@, json::int_view(line as int)),
            ("character"@, json::int_view(character as int)),
        ],
    )
}

/// The JSON of an edit.
pub open spec fn text_edit_json(edit: TextEdit) -> JsonV {
    JsonV::Object(
        seq![("range"@, rng_json(edit.range)), ("newText"@, JsonV::Str(edit.new_text@))],
    )
}

/// The JSON of a text in a markup language.
pub open spec fn markup_json(markup: MarkupContent) -> JsonV {
    JsonV::Object(
        seq![("kind"@, JsonV::Str(markup.kind@)), ("value"@, JsonV::Str(markup.value@))],
    )
}

/// The JSON of a documentation: a string or an object.
pub open spec fn documentation_json(doc: Documentation) -> JsonV {
    match doc {
        Documentation::Plain(value) => JsonV::Str(value@),
        Documentation::Markup(markup) => markup_json(markup),
    }
}

/// The JSON of an optional documentation.
pub open spec fn documentation_value(doc: Option<Documentation>) -> Option<JsonV> {
    match doc {
        Some(doc) => Some(documentation_json(doc)),
        None => None,
    }
}

/// The JSON of label details.
pub open spec fn label_details_json(details: LabelDetails) -> JsonV {
    JsonV::Object(
        with_some(
            with_some(seq![], "detail"@, text_value(details.detail)),
            "description"@,
            text_value(details.description),
        ),
    )
}

/// The JSON of the edit of a completion item.
pub open spec fn completion_edit_json(edit: CompletionEdit) -> JsonV {
    match edit {
        CompletionEdit::Plain(edit) => text_edit_json(edit),
        CompletionEdit::InsertReplace(edit) => JsonV::Object(
            seq![
                ("newText"@, JsonV::Str(edit.new_text@)),
                ("insert"@, rng_json(edit.insert)),
                ("replace"@, rng_json(edit.replace)),
            ],
        ),
    }
}

/// The JSON of a command.
pub open spec fn command_json(command: Command) -> JsonV {
    let base = seq![
        ("title"@, JsonV::Str(command.title@)),
        ("command"@, JsonV::Str(command.command@)),
    ];
    JsonV::Object(
        with_some(
            with_some(base, "tooltip"@, text_value(command.tooltip)),
            "arguments"@,
            opaque_value(command.arguments),
        ),
    )
}

/// The JSON of a list of numbers.
pub open spec fn ints_json(list: Seq<i32>) -> JsonV {
    JsonV::Array(list.map_values(|n: i32| json::int_view(n as int)))
}

/// The JSON of a list of edits.
pub open spec fn text_edits_json(edits: Seq<TextEdit>) -> JsonV {
    JsonV::Array(edits.map_values(|e: TextEdit| text_edit_json(e)))
}

/// The JSON of a completion item.
pub open spec fn completion_item_json(item: CompletionItem) -> JsonV {
    let m: Members = seq![("label"@, JsonV::Str(item.label@))];
    let m = with_some(
        m,
        "labelDetails"@,
        match item.label_details {
            Some(details) => Some(label_details_json(details)),
            None => None,
        },
    );
    let m = with_some(m, "kind"@, int_value(item.kind));
    let m = with_some(
        m,
        "tags"@,
        match item.tags {
            Some(tags) => Some(ints_json(tags@)),
            None => None,
        },
    );
    let m = with_some(m, "detail"@, text_value(item.detail));
    let m = with_some(m, "documentation"@, documentation_value(item.documentation));
    let m = with_some(m, "deprecated"@, bool_value(item.deprecated));
    let m = with_some(m, "preselect"@, bool_value(item.preselect));
    let m = with_some(m, "sortText"@, text_value(item.sort_text));
    let m = with_some(m, "filterText"@, text_value(item.filter_text));
    let m = with_some(m, "insertText"@, text_value(item.insert_text));
    let m = with_some(m, "insertTextFormat"@, int_value(item.insert_text_format));
    let m = with_some(m, "insertTextMode"@, int_value(item.insert_text_mode));
    let m = with_some(
        m,
        "textEdit"@,
        match item.text_edit {
            Some(edit) => Some(completion_edit_json(edit)),
            None => None,
        },
    );
    let m = with_some(m, "textEditText"@, text_value(item.text_edit_text));
    let m = with_some(
        m,
        "additionalTextEdits"@,
        match item.additional_text_edits {
            Some(edits) => Some(text_edits_json(edits@)),
            None => None,
        },
    );
    let m = with_some(m, "commitCharacters"@, texts_value(item.commit_characters));
    let m = with_some(
        m,
        "command"@,
        match item.command {
            Some(command) => Some(command_json(command)),
            None => None,
        },
    );
    JsonV::Object(with_some(m, "data"@, opaque_value(item.data)))
}

/// Adds a member unless it is absent.
pub fn put_some(members: &mut Vec<(String, Json)>, name: &str, value: Option<Json>)
    ensures
        json::member_views(final(members)@) == with_some(
            json::member_views(old(members)@),
            name@,
            match value {
                Some(value) => Some(value@),
                None => None,
            },
        ),
{
    match value {
        Some(value) => {
            json::put(members, name, value);
        },
        None => {},
    }
}

pub fn put_text(members: &mut Vec<(String, Json)>, name: &str, value: &Option<String>)
    ensures
        json::member_views(final(members)@) == with_some(
            json::member_views(old(members)@),
            name@,
            text_value(*value),
        ),
{
    match value {
        Some(value) => {
            json::put(members, name, json::string(value.as_str()));
        },
        None => {},
    }
}

fn put_int(members: &mut Vec<(String, Json)>, name: &str, value: Option<i32>)
    ensures
        json::member_views(final(members)@) == with_some(
            json::member_views(old(members)@),
            name@,
            int_value(value),
        ),
{
    match value {
        Some(value) => {
            json::put(members, name, json::number(value as i64));
        },
        None => {},
    }
}

fn put_bool(members: &mut Vec<(String, Json)>, name: &str, value: Option<bool>)
    ensures
        json::member_views(final(members)@) == with_some(
            json::member_views(old(members)@),
            name@,
            bool_value(value),
        ),
{
    match value {
        Some(value) => {
            json::put(members, name, Json::Bool(value));
        },
        None => {},
    }
}

fn put_opaque(members: &mut Vec<(String, Json)>, name: &str, value: &Option<Vec<u8>>)
    ensures
        json::member_views(final(members)@) == with_some(
            json::member_views(old(members)@),
            name@,
            opaque_value(*value),
        ),
{
    match value {
        Some(bytes) => {
            json::put(members, name, opaque_json(bytes.as_slice()));
        },
        None => {},
    }
}

fn put_texts(members: &mut Vec<(String, Json)>, name: &str, value: &Option<Vec<String>>)
    ensures
        json::member_views(final(members)@) == with_some(
            json::member_views(old(members)@),
            name@,
            texts_value(*value),
        ),
{
    match value {
        Some(list) => {
            json::put(members, name, json::strings(list.as_slice()));
        },
        None => {},
    }
}

/// JSON that is carried as bytes; null where the bytes are no JSON.
pub fn opaque_json(bytes: &[u8]) -> (value: Json)
    ensures
        value@ == opaque(bytes@),
{
    match json::parse(bytes) {
        Ok(value) => value,
        Err(_) => Json::Null,
    }
}

fn point_value(line: u32, character: u32) -> (value: Json)
    ensures
        value@ == point_json(line, character),
{
    let mut members: Vec<(String, Json)> = Vec::new();
    assert(json::member_views(members@) =~= seq![]);
    json::put(&mut members, "line", json::natural(line as u64));
    json::put(&mut members, "character", json::natural(character as u64));
    let value = json::object(members);
    assert(value@->Object_0 =~= point_json(line, character)->Object_0);
    value
}

/// The JSON of a range.
pub fn range_value(range: &Rng) -> (value: Json)
    ensures
        value@ == rng_json(*range),
{
    let mut members: Vec<(String, Json)> = Vec::new();
    assert(json::member_views(members@) =~= seq![]);
    json::put(&mut members, "start", point_value(range.start_line, range.start_character));
    json::put(&mut members, "end", point_value(range.end_line, range.end_character));
    let value = json::object(members);
    assert(value@->Object_0 =~= rng_json(*range)->Object_0);
    value
}

/// The JSON of an edit.
pub fn text_edit_value(edit: &TextEdit) -> (value: Json)
    ensures
        value@ == text_edit_json(*edit),
{
    let mut members: Vec<(String, Json)> = Vec::new();
    assert(json::member_views(members@) =~= seq![]);
    json::put(&mut members, "range", range_value(&edit.range));
    json::put(&mut members, "newText", json::string(edit.new_text.as_str()));
    let value = json::object(members);
    assert(value@->Object_0 =~= text_edit_json(*edit)->Object_0);
    value
}

/// The JSON of a list of edits.
pub fn text_edit_values(edits: &Vec<TextEdit>) -> (value: Json)
    ensures
        value@ == text_edits_json(edits@),
{
    let ghost all = text_edits_json(edits@)->Array_0;
    let mut items: Vec<Json> = Vec::new();
    let mut i: usize = 0;
    assert(json::views(items@) =~= all.take(0));
    while i < edits.len()
        invariant
            i <= edits@.len(),
            all == text_edits_json(edits@)->Array_0,
            json::views(items@) == all.take(i as int),
        decreases edits.len() - i,
    {
        json::push(&mut items, text_edit_value(&edits[i]));
        i += 1;
        assert(all.take(i as int) =~= all.take(i - 1).push(all[i - 1]));
    }
    assert(all.take(i as int) =~= all);
    json::array(items)
}

fn int_values(list: &Vec<i32>) -> (value: Json)
    ensures
        value@ == ints_json(list@),
{
    let ghost all = ints_json(list@)->Array_0;
    let mut items: Vec<Json> = Vec::new();
    let mut i: usize = 0;
    assert(json::views(items@) =~= all.take(0));
    while i < list.len()
        invariant
            i <= list@.len(),
            all == ints_json(list@)->Array_0,
            json::views(items@) == all.take(i as int),
        decreases list.len() - i,
    {
        json::push(&mut items, json::number(list[i] as i64));
        i += 1;
        assert(all.take(i as int) =~= all.take(i - 1).push(all[i - 1]));
    }
    assert(all.take(i as int) =~= all);
    json::array(items)
}

fn markup_content(markup: &MarkupContent) -> (value: Json)
    ensures
        value@ == markup_json(*markup),
{
    let mut members: Vec<(String, Json)> = Vec::new();
    assert(json::member_views(members@) =~= seq![]);
    json::put(&mut members, "kind", json::string(markup.kind.as_str()));
    json::put(&mut members, "value", json::string(markup.value.as_str()));
    let value = json::object(members);
    assert(value@->Object_0 =~= markup_json(*markup)->Object_0);
    value
}

fn documentation(doc: &Documentation) -> (value: Json)
    ensures
        value@ == documentation_json(*doc),
{
    match doc {
        Documentation::Plain(value) => json::string(value.as_str()),
        Documentation::Markup(markup) => markup_content(markup),
    }
}

fn optional_documentation(doc: &Option<Documentation>) -> (value: Option<Json>)
    ensures
        crate::jsonrpc::optional_view(value) == documentation_value(*doc),
{
    match doc {
        Some(doc) => Some(documentation(doc)),
        None => None,
    }
}

fn label_details(details: &LabelDetails) -> (value: Json)
    ensures
        value@ == label_details_json(*details),
{
    let mut members: Vec<(String, Json)> = Vec::new();
    assert(json::member_views(members@) =~= seq![]);
    put_text(&mut members, "detail", &details.detail);
    put_text(&mut members, "description", &details.description);
    json::object(members)
}

fn completion_edit(edit: &CompletionEdit) -> (value: Json)
    ensures
        value@ == completion_edit_json(*edit),
{
    match edit {
        CompletionEdit::Plain(edit) => text_edit_value(edit),
        CompletionEdit::InsertReplace(both) => {
            let mut members: Vec<(String, Json)> = Vec::new();
            assert(json::member_views(members@) =~= seq![]);
            json::put(&mut members, "newText", json::string(both.new_text.as_str()));
            json::put(&mut members, "insert", range_value(&both.insert));
            json::put(&mut members, "replace", range_value(&both.replace));
            let value = json::object(members);
            assert(value@->Object_0 =~= completion_edit_json(*edit)->Object_0);
            value
        },
    }
}

fn command(cmd: &Command) -> (value: Json)
    ensures
        value@ == command_json(*cmd),
{
    let mut members: Vec<(String, Json)> = Vec::new();
    assert(json::member_views(members@) =~= seq![]);
    json::put(&mut members, "title", json::string(cmd.title.as_str()));
    json::put(&mut members, "command", json::string(cmd.command.as_str()));
    assert(json::member_views(members@) =~= seq![
        ("title"@, JsonV::Str(cmd.title@)),
        ("command"@, JsonV::Str(cmd.command@)),
    ]);
    put_text(&mut members, "tooltip", &cmd.tooltip);
    put_opaque(&mut members, "arguments", &cmd.arguments);
    json::object(members)
}

/// The JSON of a completion item.
pub fn completion_item(item: &CompletionItem) -> (value: Json)
    ensures
        value@ == completion_item_json(*item),
{
    let mut members: Vec<(String, Json)> = Vec::new();
    assert(json::member_views(members@) =~= seq![]);
    json::put(&mut members, "label", json::string(item.label.as_str()));
    assert(json::member_views(members@) =~= seq![("label"@, JsonV::Str(item.label@))]);
    put_some(
        &mut members,
        "labelDetails",
        match &item.label_details {
            Some(details) => Some(label_details(details)),
            None => None,
        },
    );
    put_int(&mut members, "kind", item.kind);
    put_some(
        &mut members,
        "tags",
        match &item.tags {
            Some(tags) => Some(int_values(tags)),
            None => None,
        },
    );
    put_text(&mut members, "detail", &item.detail);
    put_some(&mut members, "documentation", optional_documentation(&item.documentation));
    put_bool(&mut members, "deprecated", item.deprecated);
    put_bool(&mut members, "preselect", item.preselect);
    put_text(&mut members, "sortText", &item.sort_text);
    put_text(&mut members, "filterText", &item.filter_text);
    put_text(&mut members, "insertText", &item.insert_text);
    put_int(&mut members, "insertTextFormat", item.insert_text_format);
    put_int(&mut members, "insertTextMode", item.insert_text_mode);
    put_some(
        &mut members,
        "textEdit",
        match &item.text_edit {
            Some(edit) => Some(completion_edit(edit)),
            None => None,
        },
    );
    put_text(&mut members, "textEditText", &item.text_edit_text);
    put_some(
        &mut members,
        "additionalTextEdits",
        match &item.additional_text_edits {
            Some(edits) => Some(text_edit_values(edits)),
            None => None,
        },
    );
    put_texts(&mut members, "commitCharacters", &item.commit_characters);
    put_some(
        &mut members,
        "command",
        match &item.command {
            Some(cmd) => Some(command(cmd)),
            None => None,
        },
    );
    put_opaque(&mut members, "data", &item.data);
    json::object(members)
}

/// The JSON of a default edit range.
pub open spec fn edit_range_json(range: EditRange) -> JsonV {
    match range {
        EditRange::Range(range) => rng_json(range),
        EditRange::InsertReplace { insert, replace } => JsonV::Object(
            seq![("insert"@, rng_json(insert)), ("replace"@, rng_json(replace))],
        ),
    }
}

fn edit_range_value(range: &EditRange) -> (value: Json)
    ensures
        value@ == edit_range_json(*range),
{
    match range {
        EditRange::Range(range) => range_value(range),
        EditRange::InsertReplace { insert, replace } => {
            let mut members: Vec<(String, Json)> = Vec::new();
            assert(json::member_views(members@) =~= seq![]);
            json::put(&mut members, "insert", range_value(insert));
            json::put(&mut members, "replace", range_value(replace));
            let value = json::object(members);
            assert(value@->Object_0 =~= edit_range_json(*range)->Object_0);
            value
        },
    }
}

/// The JSON of what the items of a list have in common.
pub open spec fn item_defaults_json(defaults: CompletionItemDefaults) -> JsonV {
    let m: Members = with_some(
        seq![],
        "commitCharacters"@,
        texts_value(defaults.commit_characters),
    );
    let m = with_some(
        m,
        "editRange"@,
        match defaults.edit_range {
            Some(range) => Some(edit_range_json(range)),
            None => None,
        },
    );
    let m = with_some(m, "insertTextFormat"@, int_value(defaults.insert_text_format));
    let m = with_some(m, "insertTextMode"@, int_value(defaults.insert_text_mode));
    JsonV::Object(with_some(m, "data"@, opaque_value(defaults.data)))
}

fn item_defaults(defaults: &CompletionItemDefaults) -> (value: Json)
    ensures
        value@ == item_defaults_json(*defaults),
{
    let mut members: Vec<(String, Json)> = Vec::new();
    assert(json::member_views(members@) =~= seq![]);
    put_texts(&mut members, "commitCharacters", &defaults.commit_characters);
    put_some(
        &mut members,
        "editRange",
        match &defaults.edit_range {
            Some(range) => Some(edit_range_value(range)),
            None => None,
        },
    );
    put_int(&mut members, "insertTextFormat", defaults.insert_text_format);
    put_int(&mut members, "insertTextMode", defaults.insert_text_mode);
    put_opaque(&mut members, "data", &defaults.data);
    json::object(members)
}

/// The JSON of how defaults and items combine.
pub open spec fn apply_kind_json(apply: CompletionApplyKind) -> JsonV {
    JsonV::Object(
        with_some(
            with_some(seq![], "commitCharacters"@, int_value(apply.commit_characters)),
            "data"@,
            int_value(apply.data),
        ),
    )
}

fn apply_kind(apply: &CompletionApplyKind) -> (value: Json)
    ensures
        value@ == apply_kind_json(*apply),
{
    let mut members: Vec<(String, Json)> = Vec::new();
    assert(json::member_views(members@) =~= seq![]);
    put_int(&mut members, "commitCharacters", apply.commit_characters);
    put_int(&mut members, "data", apply.data);
    json::object(members)
}

/// The JSON of the items of a list.
pub open spec fn items_json(items: Seq<CompletionItem>) -> JsonV {
    JsonV::Array(items.map_values(|item: CompletionItem| completion_item_json(item)))
}

/// The JSON of a list of completions.
pub open spec fn completion_list_json(list: CompletionList) -> JsonV {
    let m: Members = seq![("isIncomplete"@, JsonV::Bool(list.is_incomplete))];
    let m = with_some(
        m,
        "itemDefaults"@,
        match list.item_defaults {
            Some(defaults) => Some(item_defaults_json(defaults)),
            None => None,
        },
    );
    let m = with_some(
        m,
        "applyKind"@,
        match list.apply_kind {
            Some(apply) => Some(apply_kind_json(apply)),
            None => None,
        },
    );
    JsonV::Object(with(m, "items"@, items_json(list.items@)))
}

/// The JSON of a list of completions.
pub fn completion_list(list: &CompletionList) -> (value: Json)
    ensures
        value@ == completion_list_json(*list),
{
    let mut members: Vec<(String, Json)> = Vec::new();
    assert(json::member_views(members@) =~= seq![]);
    json::put(&mut members, "isIncomplete", Json::Bool(list.is_incomplete));
    assert(json::member_views(members@) =~= seq![
        ("isIncomplete"@, JsonV::Bool(list.is_incomplete)),
    ]);
    put_some(
        &mut members,
        "itemDefaults",
        match &list.item_defaults {
            Some(defaults) => Some(item_defaults(defaults)),
            None => None,
        },
    );
    put_some(
        &mut members,
        "applyKind",
        match &list.apply_kind {
            Some(apply) => Some(apply_kind(apply)),
            None => None,
        },
    );
    let ghost all = items_json(list.items@)->Array_0;
    let mut items: Vec<Json> = Vec::new();
    let mut i: usize = 0;
    assert(json::views(items@) =~= all.take(0));
    while i < list.items.len()
        invariant
            i <= list.items@.len(),
            all == items_json(list.items@)->Array_0,
            json::views(items@) == all.take(i as int),
        decreases list.items.len() - i,
    {
        json::push(&mut items, completion_item(&list.items[i]));
        i += 1;
        assert(all.take(i as int) =~= all.take(i - 1).push(all[i - 1]));
    }
    assert(all.take(i as int) =~= all);
    json::put(&mut members, "items", json::array(items));
    json::object(members)
}

/// The JSON of a complete list without items.
pub open spec fn no_completions() -> JsonV {
    JsonV::Object(
        seq![("isIncomplete"@, JsonV::Bool(false)), ("items"@, JsonV::Array(seq![]))],
    )
}

/// A complete list without items.
pub fn empty_completions() -> (value: Json)
    ensures
        value@ == no_completions(),
{
    let mut members: Vec<(String, Json)> = Vec::new();
    assert(json::member_views(members@) =~= seq![]);
    json::put(&mut members, "isIncomplete", Json::Bool(false));
    let items: Vec<Json> = Vec::new();
    assert(json::views(items@) =~= seq![]);
    json::put(&mut members, "items", json::array(items));
    let value = json::object(members);
    assert(value@->Object_0 =~= no_completions()->Object_0);
    value
}

/// The JSON of a part of a hover.
pub open spec fn marked_json(item: MarkedStringItem) -> JsonV {
    match item {
        MarkedStringItem::Plain(value) => JsonV::Str(value@),
        MarkedStringItem::Marked { language, value } => JsonV::Object(
            seq![("language"@, JsonV::Str(language@)), ("value"@, JsonV::Str(value@))],
        ),
    }
}

fn marked_string(item: &MarkedStringItem) -> (json: Json)
    ensures
        json@ == marked_json(*item),
{
    match item {
        MarkedStringItem::Plain(value) => json::string(value.as_str()),
        MarkedStringItem::Marked { language, value } => {
            let mut members: Vec<(String, Json)> = Vec::new();
            assert(json::member_views(members@) =~= seq![]);
            json::put(&mut members, "language", json::string(language.as_str()));
            json::put(&mut members, "value", json::string(value.as_str()));
            let json = json::object(members);
            assert(json@->Object_0 =~= marked_json(*item)->Object_0);
            json
        },
    }
}

/// The JSON of the contents of a hover.
pub open spec fn hover_contents_json(contents: HoverContents) -> JsonV {
    match contents {
        HoverContents::Markup(markup) => markup_json(markup),
        HoverContents::Marked(items) => JsonV::Array(
            items@.map_values(|item: MarkedStringItem| marked_json(item)),
        ),
    }
}

fn hover_contents(contents: &HoverContents) -> (value: Json)
    ensures
        value@ == hover_contents_json(*contents),
{
    match contents {
        HoverContents::Markup(markup) => markup_content(markup),
        HoverContents::Marked(list) => {
            let ghost all = list@.map_values(|item: MarkedStringItem| marked_json(item));
            let mut items: Vec<Json> = Vec::new();
            let mut i: usize = 0;
            assert(json::views(items@) =~= all.take(0));
            while i < list.len()
                invariant
                    i <= list@.len(),
                    all == list@.map_values(|item: MarkedStringItem| marked_json(item)),
                    json::views(items@) == all.take(i as int),
                decreases list.len() - i,
            {
                json::push(&mut items, marked_string(&list[i]));
                i += 1;
                assert(all.take(i as int) =~= all.take(i - 1).push(all[i - 1]));
            }
            assert(all.take(i as int) =~= all);
            json::array(items)
        },
    }
}

/// The JSON of a hover.
pub open spec fn hover_json(hover: Hover) -> JsonV {
    JsonV::Object(
        with_some(
            seq![("contents"@, hover_contents_json(hover.contents))],
            "range"@,
            match hover.range {
                Some(range) => Some(rng_json(range)),
                None => None,
            },
        ),
    )
}

/// The JSON of a hover, null where there is none.
pub open spec fn hover_result_json(result: HoverResult) -> JsonV {
    match result.0 {
        Some(hover) => hover_json(hover),
        None => JsonV::Null,
    }
}

/// The JSON of a hover, null where there is none.
pub fn hover_result(result: &HoverResult) -> (value: Json)
    ensures
        value@ == hover_result_json(*result),
{
    match &result.0 {
        None => Json::Null,
        Some(hover) => {
            let mut members: Vec<(String, Json)> = Vec::new();
            assert(json::member_views(members@) =~= seq![]);
            json::put(&mut members, "contents", hover_contents(&hover.contents));
            assert(json::member_views(members@) =~= seq![
                ("contents"@, hover_contents_json(hover.contents)),
            ]);
            put_some(
                &mut members,
                "range",
                match &hover.range {
                    Some(range) => Some(range_value(range)),
                    None => None,
                },
            );
            json::object(members)
        },
    }
}

/// The JSON of the label of a parameter.
pub open spec fn parameter_label_json(label: ParameterLabel) -> JsonV {
    match label {
        ParameterLabel::Str(value) => JsonV::Str(value@),
        ParameterLabel::Offsets { start, end } => JsonV::Array(
            seq![json::int_view(start as int), json::int_view(end as int)],
        ),
    }
}

fn parameter_label(label: &ParameterLabel) -> (value: Json)
    ensures
        value@ == parameter_label_json(*label),
{
    match label {
        ParameterLabel::Str(value) => json::string(value.as_str()),
        ParameterLabel::Offsets { start, end } => {
            let mut items: Vec<Json> = Vec::new();
            assert(json::views(items@) =~= seq![]);
            json::push(&mut items, json::natural(*start as u64));
            json::push(&mut items, json::natural(*end as u64));
            let value = json::array(items);
            assert(value@->Array_0 =~= parameter_label_json(*label)->Array_0);
            value
        },
    }
}

/// The JSON of a parameter.
pub open spec fn parameter_json(param: ParameterInfo) -> JsonV {
    JsonV::Object(
        with_some(
            seq![("label"@, parameter_label_json(param.label))],
            "documentation"@,
            documentation_value(param.documentation),
        ),
    )
}

fn parameter_info(param: &ParameterInfo) -> (value: Json)
    ensures
        value@ == parameter_json(*param),
{
    let mut members: Vec<(String, Json)> = Vec::new();
    assert(json::member_views(members@) =~= seq![]);
    json::put(&mut members, "label", parameter_label(&param.label));
    assert(json::member_views(members@) =~= seq![("label"@, parameter_label_json(param.label))]);
    put_some(&mut members, "documentation", optional_documentation(&param.documentation));
    json::object(members)
}

/// The JSON of a list of parameters.
pub open spec fn parameters_json(params: Seq<ParameterInfo>) -> JsonV {
    JsonV::Array(params.map_values(|p: ParameterInfo| parameter_json(p)))
}

fn parameter_infos(params: &Vec<ParameterInfo>) -> (value: Json)
    ensures
        value@ == parameters_json(params@),
{
    let ghost all = parameters_json(params@)->Array_0;
    let mut items: Vec<Json> = Vec::new();
    let mut i: usize = 0;
    assert(json::views(items@) =~= all.take(0));
    while i < params.len()
        invariant
            i <= params@.len(),
            all == parameters_json(params@)->Array_0,
            json::views(items@) == all.take(i as int),
        decreases params.len() - i,
    {
        json::push(&mut items, parameter_info(&params[i]));
        i += 1;
        assert(all.take(i as int) =~= all.take(i - 1).push(all[i - 1]));
    }
    assert(all.take(i as int) =~= all);
    json::array(items)
}

/// The JSON of a signature.
pub open spec fn signature_json(sig: SignatureInfo) -> JsonV {
    let m: Members = seq![("label"@, JsonV::Str(sig.label@))];
    let m = with_some(m, "documentation"@, documentation_value(sig.documentation));
    let m = with_some(
        m,
        "parameters"@,
        match sig.parameters {
            Some(params) => Some(parameters_json(params@)),
            None => None,
        },
    );
    JsonV::Object(with_some(m, "activeParameter"@, int_value(sig.active_parameter)))
}

fn signature_info(sig: &SignatureInfo) -> (value: Json)
    ensures
        value@ == signature_json(*sig),
{
    let mut members: Vec<(String, Json)> = Vec::new();
    assert(json::member_views(members@) =~= seq![]);
    json::put(&mut members, "label", json::string(sig.label.as_str()));
    assert(json::member_views(members@) =~= seq![("label"@, JsonV::Str(sig.label@))]);
    put_some(&mut members, "documentation", optional_documentation(&sig.documentation));
    put_some(
        &mut members,
        "parameters",
        match &sig.parameters {
            Some(params) => Some(parameter_infos(params)),
            None => None,
        },
    );
    put_int(&mut members, "activeParameter", sig.active_parameter);
    json::object(members)
}

/// The JSON of the signatures at a point.
pub open spec fn signature_help_json(help: SignatureHelp) -> JsonV {
    let m: Members = seq![
        (
            "signatures"@,
            JsonV::Array(help.signatures@.map_values(|s: SignatureInfo| signature_json(s))),
        ),
    ];
    let m = with_some(m, "activeSignature"@, int_value(help.active_signature));
    JsonV::Object(with_some(m, "activeParameter"@, int_value(help.active_parameter)))
}

/// The JSON of the signatures at a point.
pub fn signature_help(help: &SignatureHelp) -> (value: Json)
    ensures
        value@ == signature_help_json(*help),
{
    let ghost all = help.signatures@.map_values(|s: SignatureInfo| signature_json(s));
    let mut items: Vec<Json> = Vec::new();
    let mut i: usize = 0;
    assert(json::views(items@) =~= all.take(0));
    while i < help.signatures.len()
        invariant
            i <= help.signatures@.len(),
            all == help.signatures@.map_values(|s: SignatureInfo| signature_json(s)),
            json::views(items@) == all.take(i as int),
        decreases help.signatures.len() - i,
    {
        json::push(&mut items, signature_info(&help.signatures[i]));
        i += 1;
        assert(all.take(i as int) =~= all.take(i - 1).push(all[i - 1]));
    }
    assert(all.take(i as int) =~= all);
    let mut members: Vec<(String, Json)> = Vec::new();
    assert(json::member_views(members@) =~= seq![]);
    json::put(&mut members, "signatures", json::array(items));
    assert(json::member_views(members@) =~= seq![("signatures"@, JsonV::Array(all))]);
    put_int(&mut members, "activeSignature", help.active_signature);
    put_int(&mut members, "activeParameter", help.active_parameter);
    json::object(members)
}

/// One member more, unless it is absent, is found under its name where there was none before.
pub broadcast proof fn lemma_with_some(
    members: Members,
    name: Seq<char>,
    value: Option<JsonV>,
    wanted: Seq<char>,
)
    ensures
        #[trigger] json::member(with_some(members, name, value), wanted) == (if name == wanted
            && json::member(members, wanted) is None {
            value
        } else {
            json::member(members, wanted)
        }),
{
    broadcast use json::lemma_member_push;

}

/// What is found is a text, and nothing where there is none.
pub open spec fn shows_text(found: Option<JsonV>, text: Option<String>) -> bool {
    match text {
        Some(text) => found == Some(JsonV::Str(text@)),
        None => found is None,
    }
}

/// What is found is a number, and nothing where there is none.
pub open spec fn shows_number(found: Option<JsonV>, number: Option<i32>) -> bool {
    match number {
        Some(n) => found == Some(json::int_view(n as int)),
        None => found is None,
    }
}

/// What is found is a truth value, and nothing where there is none.
pub open spec fn shows_bool(found: Option<JsonV>, truth: Option<bool>) -> bool {
    match truth {
        Some(b) => found == Some(JsonV::Bool(b)),
        None => found is None,
    }
}

/// What is found is the JSON that bytes hold, null where they hold none, and nothing where
/// there are no bytes.
pub open spec fn shows_opaque(found: Option<JsonV>, bytes: Option<Vec<u8>>) -> bool {
    match bytes {
        Some(bytes) => match json::parsed(bytes@) {
            Ok(value) => found == Some(value),
            Err(_) => found == Some(JsonV::Null),
        },
        None => found is None,
    }
}

/// What is found is a list of texts, each of them in order, and nothing where there is none.
pub open spec fn shows_texts(found: Option<JsonV>, list: Option<Vec<String>>) -> bool {
    match list {
        Some(list) => found matches Some(JsonV::Array(items)) && items.len() == list@.len()
            && forall|k: int|
            0 <= k < items.len() ==> #[trigger] items[k] == JsonV::Str(list@[k]@),
        None => found is None,
    }
}

/// A JSON object shows a position.
pub open spec fn shows_point(value: JsonV, line: u32, character: u32) -> bool {
    &&& value.get("line"@) == Some(json::int_view(line as int))
    &&& value.get("character"@) == Some(json::int_view(character as int))
}

/// What is found is an object that shows a range.
pub open spec fn shows_rng(found: Option<JsonV>, range: Rng) -> bool {
    match found {
        Some(value) => {
            &&& value.get("start"@) matches Some(start) && shows_point(
                start,
                range.start_line,
                range.start_character,
            )
            &&& value.get("end"@) matches Some(end) && shows_point(
                end,
                range.end_line,
                range.end_character,
            )
        },
        None => false,
    }
}

/// A JSON object shows an edit.
pub open spec fn shows_edit(value: JsonV, edit: TextEdit) -> bool {
    &&& shows_rng(value.get("range"@), edit.range)
    &&& value.get("newText"@) == Some(JsonV::Str(edit.new_text@))
}

/// What is found is a list of edits, each of them in order, and nothing where there is none.
pub open spec fn shows_edits(found: Option<JsonV>, edits: Option<Vec<TextEdit>>) -> bool {
    match edits {
        Some(edits) => found matches Some(JsonV::Array(items)) && items.len() == edits@.len()
            && forall|k: int|
            0 <= k < items.len() ==> shows_edit(#[trigger] items[k], edits@[k]),
        None => found is None,
    }
}

/// A JSON object shows a text in a markup language.
pub open spec fn shows_markup(value: JsonV, markup: MarkupContent) -> bool {
    &&& value.get("kind"@) == Some(JsonV::Str(markup.kind@))
    &&& value.get("value"@) == Some(JsonV::Str(markup.value@))
}

/// What is found is a documentation, a string or an object, and nothing where there is none.
pub open spec fn shows_documentation(found: Option<JsonV>, doc: Option<Documentation>) -> bool {
    match doc {
        Some(Documentation::Plain(text)) => found == Some(JsonV::Str(text@)),
        Some(Documentation::Markup(markup)) => found matches Some(value) && shows_markup(
            value,
            markup,
        ),
        None => found is None,
    }
}

/// What is found is an object that shows label details, and nothing where there are none.
pub open spec fn shows_details(found: Option<JsonV>, details: Option<LabelDetails>) -> bool {
    match details {
        Some(details) => found matches Some(value) && shows_text(
            value.get("detail"@),
            details.detail,
        ) && shows_text(value.get("description"@), details.description),
        None => found is None,
    }
}

/// What is found is an object that shows the edit of a completion item, and nothing where there
/// is none.
pub open spec fn shows_completion_edit(
    found: Option<JsonV>,
    edit: Option<CompletionEdit>,
) -> bool {
    match edit {
        Some(CompletionEdit::Plain(edit)) => found matches Some(value) && shows_edit(value, edit),
        Some(CompletionEdit::InsertReplace(edit)) => found matches Some(value) && value.get(
            "newText"@,
        ) == Some(JsonV::Str(edit.new_text@)) && shows_rng(value.get("insert"@), edit.insert)
            && shows_rng(value.get("replace"@), edit.replace),
        None => found is None,
    }
}

/// What is found is an object that shows a command, and nothing where there is none.
pub open spec fn shows_command(found: Option<JsonV>, command: Option<Command>) -> bool {
    match command {
        Some(command) => found matches Some(value) && value.get("title"@) == Some(
            JsonV::Str(command.title@),
        ) && value.get("command"@) == Some(JsonV::Str(command.command@)) && shows_text(
            value.get("tooltip"@),
            command.tooltip,
        ) && shows_opaque(value.get("arguments"@), command.arguments),
        None => found is None,
    }
}

/// What is found is a list of numbers, each of them in order, and nothing where there is none.
pub open spec fn shows_numbers(found: Option<JsonV>, list: Option<Vec<i32>>) -> bool {
    match list {
        Some(list) => found matches Some(JsonV::Array(items)) && items.len() == list@.len()
            && forall|k: int|
            0 <= k < items.len() ==> #[trigger] items[k] == json::int_view(list@[k] as int),
        None => found is None,
    }
}

/// A JSON object shows a completion item: each field of the item under its own name, and
/// nothing under the name of one that is absent.
pub open spec fn shows_item(value: JsonV, item: CompletionItem) -> bool {
    &&& value.get("label"@) == Some(JsonV::Str(item.label@))
    &&& shows_details(value.get("labelDetails"@), item.label_details)
    &&& shows_number(value.get("kind"@), item.kind)
    &&& shows_numbers(value.get("tags"@), item.tags)
    &&& shows_text(value.get("detail"@), item.detail)
    &&& shows_documentation(value.get("documentation"@), item.documentation)
    &&& shows_bool(value.get("deprecated"@), item.deprecated)
    &&& shows_bool(value.get("preselect"@), item.preselect)
    &&& shows_text(value.get("sortText"@), item.sort_text)
    &&& shows_text(value.get("filterText"@), item.filter_text)
    &&& shows_text(value.get("insertText"@), item.insert_text)
    &&& shows_number(value.get("insertTextFormat"@), item.insert_text_format)
    &&& shows_number(value.get("insertTextMode"@), item.insert_text_mode)
    &&& shows_completion_edit(value.get("textEdit"@), item.text_edit)
    &&& shows_text(value.get("textEditText"@), item.text_edit_text)
    &&& shows_edits(value.get("additionalTextEdits"@), item.additional_text_edits)
    &&& shows_texts(value.get("commitCharacters"@), item.commit_characters)
    &&& shows_command(value.get("command"@), item.command)
    &&& shows_opaque(value.get("data"@), item.data)
}

proof fn lemma_shows_rng(range: Rng)
    ensures
        shows_rng(Some(rng_json(range)), range),
{
    broadcast use json::lemma_member_short;

    reveal_strlit("line");
    reveal_strlit("character");
    reveal_strlit("start");
    reveal_strlit("end");
    assert("line"@.len() != "character"@.len());
    assert("start"@.len() != "end"@.len());
}

proof fn lemma_shows_edit(edit: TextEdit)
    ensures
        shows_edit(text_edit_json(edit), edit),
{
    broadcast use json::lemma_member_short;

    lemma_shows_rng(edit.range);
    reveal_strlit("range");
    reveal_strlit("newText");
    assert("range"@.len() != "newText"@.len());
}

/// The JSON of a list of edits shows each of them, in order.
pub proof fn law_edits_shown(edits: Vec<TextEdit>)
    ensures
        shows_edits(Some(text_edits_json(edits@)), Some(edits)),
{
    let items = text_edits_json(edits@)->Array_0;
    assert forall|k: int| 0 <= k < items.len() implies shows_edit(
        #[trigger] items[k],
        edits@[k],
    ) by {
        lemma_shows_edit(edits@[k]);
    }
}

proof fn lemma_shows_markup(markup: MarkupContent)
    ensures
        shows_markup(markup_json(markup), markup),
{
    broadcast use json::lemma_member_short;

    reveal_strlit("kind");
    reveal_strlit("value");
    assert("kind"@.len() != "value"@.len());
}

proof fn lemma_shows_documentation(doc: Option<Documentation>)
    ensures
        shows_documentation(documentation_value(doc), doc),
{
    match doc {
        Some(Documentation::Markup(markup)) => {
            lemma_shows_markup(markup);
        },
        _ => {},
    }
}

proof fn lemma_shows_details(details: LabelDetails)
    ensures
        shows_details(Some(label_details_json(details)), Some(details)),
{
    broadcast use {json::lemma_member_short, lemma_with_some};

    reveal_strlit("detail");
    reveal_strlit("description");
    assert("detail"@.len() != "description"@.len());
}

proof fn lemma_shows_completion_edit(edit: CompletionEdit)
    ensures
        shows_completion_edit(Some(completion_edit_json(edit)), Some(edit)),
{
    broadcast use json::lemma_member_short;

    match edit {
        CompletionEdit::Plain(edit) => {
            lemma_shows_edit(edit);
        },
        CompletionEdit::InsertReplace(edit) => {
            lemma_shows_rng(edit.insert);
            lemma_shows_rng(edit.replace);
            reveal_strlit("newText");
            reveal_strlit("insert");
            reveal_strlit("replace");
            assert("insert"@.len() != "replace"@.len());
            assert("newText"@[0] != "replace"@[0]);
            assert("newText"@.len() != "insert"@.len());
        },
    }
}

proof fn lemma_shows_command(command: Command)
    ensures
        shows_command(Some(command_json(command)), Some(command)),
{
    broadcast use {json::lemma_member_short, lemma_with_some};

    reveal_strlit("title");
    reveal_strlit("command");
    reveal_strlit("tooltip");
    reveal_strlit("arguments");
    assert("title"@.len() != "command"@.len());
    assert("command"@[0] != "tooltip"@[0]);
}

/// The names of the fields of a completion item differ.
proof fn lemma_item_names()
    ensures
        "label"@.len() == 5,
        "labelDetails"@.len() == 12 && "labelDetails"@[0] == 'l',
        "kind"@.len() == 4 && "kind"@[0] == 'k',
        "tags"@.len() == 4 && "tags"@[0] == 't',
        "detail"@.len() == 6,
        "documentation"@.len() == 13,
        "deprecated"@.len() == 10 && "deprecated"@[0] == 'd',
        "preselect"@.len() == 9,
        "sortText"@.len() == 8 && "sortText"@[0] == 's',
        "filterText"@.len() == 10 && "filterText"@[0] == 'f',
        "insertText"@.len() == 10 && "insertText"@[0] == 'i',
        "insertTextFormat"@.len() == 16 && "insertTextFormat"@[0] == 'i',
        "insertTextMode"@.len() == 14,
        "textEdit"@.len() == 8 && "textEdit"@[0] == 't',
        "textEditText"@.len() == 12 && "textEditText"@[0] == 't',
        "additionalTextEdits"@.len() == 19,
        "commitCharacters"@.len() == 16 && "commitCharacters"@[0] == 'c',
        "command"@.len() == 7,
        "data"@.len() == 4 && "data"@[0] == 'd',
{
    reveal_strlit("label");
    reveal_strlit("labelDetails");
    reveal_strlit("kind");
    reveal_strlit("tags");
    reveal_strlit("detail");
    reveal_strlit("documentation");
    reveal_strlit("deprecated");
    reveal_strlit("preselect");
    reveal_strlit("sortText");
    reveal_strlit("filterText");
    reveal_strlit("insertText");
    reveal_strlit("insertTextFormat");
    reveal_strlit("insertTextMode");
    reveal_strlit("textEdit");
    reveal_strlit("textEditText");
    reveal_strlit("additionalTextEdits");
    reveal_strlit("commitCharacters");
    reveal_strlit("command");
    reveal_strlit("data");
}

/// One member more, unless it is absent.
#[verifier::opaque]
spec fn grown(members: Members, name: Seq<char>, value: Option<JsonV>) -> Members {
    with_some(members, name, value)
}

broadcast proof fn lemma_grown(
    members: Members,
    name: Seq<char>,
    value: Option<JsonV>,
    wanted: Seq<char>,
)
    ensures
        #[trigger] json::member(grown(members, name, value), wanted) == (if name == wanted
            && json::member(members, wanted) is None {
            value
        } else {
            json::member(members, wanted)
        }),
{
    reveal(grown);
    lemma_with_some(members, name, value, wanted);
}

/// The members of a completion item with the given label and other fields.
spec fn item_members(label: JsonV, v: Seq<Option<JsonV>>) -> Members {
    let m: Members = seq![("label"@, label)];
    let m = grown(m, "labelDetails"@, v[0]);
    let m = grown(m, "kind"@, v[1]);
    let m = grown(m, "tags"@, v[2]);
    let m = grown(m, "detail"@, v[3]);
    let m = grown(m, "documentation"@, v[4]);
    let m = grown(m, "deprecated"@, v[5]);
    let m = grown(m, "preselect"@, v[6]);
    let m = grown(m, "sortText"@, v[7]);
    let m = grown(m, "filterText"@, v[8]);
    let m = grown(m, "insertText"@, v[9]);
    let m = grown(m, "insertTextFormat"@, v[10]);
    let m = grown(m, "insertTextMode"@, v[11]);
    let m = grown(m, "textEdit"@, v[12]);
    let m = grown(m, "textEditText"@, v[13]);
    let m = grown(m, "additionalTextEdits"@, v[14]);
    let m = grown(m, "commitCharacters"@, v[15]);
    let m = grown(m, "command"@, v[16]);
    grown(m, "data"@, v[17])
}

proof fn lemma_item_found(label: JsonV, v: Seq<Option<JsonV>>)
    ensures
        json::member(item_members(label, v), "label"@) == Some(label),
        json::member(item_members(label, v), "labelDetails"@) == v[0],
        json::member(item_members(label, v), "kind"@) == v[1],
        json::member(item_members(label, v), "tags"@) == v[2],
        json::member(item_members(label, v), "detail"@) == v[3],
        json::member(item_members(label, v), "documentation"@) == v[4],
        json::member(item_members(label, v), "deprecated"@) == v[5],
        json::member(item_members(label, v), "preselect"@) == v[6],
        json::member(item_members(label, v), "sortText"@) == v[7],
        json::member(item_members(label, v), "filterText"@) == v[8],
        json::member(item_members(label, v), "insertText"@) == v[9],
        json::member(item_members(label, v), "insertTextFormat"@) == v[10],
        json::member(item_members(label, v), "insertTextMode"@) == v[11],
        json::member(item_members(label, v), "textEdit"@) == v[12],
        json::member(item_members(label, v), "textEditText"@) == v[13],
        json::member(item_members(label, v), "additionalTextEdits"@) == v[14],
        json::member(item_members(label, v), "commitCharacters"@) == v[15],
        json::member(item_members(label, v), "command"@) == v[16],
        json::member(item_members(label, v), "data"@) == v[17],
{
    broadcast use {json::lemma_member_short, lemma_grown};

    lemma_item_names();
}

proof fn lemma_item_members(item: CompletionItem)
    ensures
        completion_item_json(item).get("label"@) == Some(JsonV::Str(item.label@)),
        completion_item_json(item).get("labelDetails"@) == (match item.label_details {
            Some(details) => Some(label_details_json(details)),
            None => None,
        }),
        completion_item_json(item).get("kind"@) == int_value(item.kind),
        completion_item_json(item).get("tags"@) == (match item.tags {
            Some(tags) => Some(ints_json(tags@)),
            None => None,
        }),
        completion_item_json(item).get("detail"@) == text_value(item.detail),
        completion_item_json(item).get("documentation"@) == documentation_value(item.documentation),
        completion_item_json(item).get("deprecated"@) == bool_value(item.deprecated),
        completion_item_json(item).get("preselect"@) == bool_value(item.preselect),
        completion_item_json(item).get("sortText"@) == text_value(item.sort_text),
        completion_item_json(item).get("filterText"@) == text_value(item.filter_text),
        completion_item_json(item).get("insertText"@) == text_value(item.insert_text),
        completion_item_json(item).get("insertTextFormat"@) == int_value(item.insert_text_format),
        completion_item_json(item).get("insertTextMode"@) == int_value(item.insert_text_mode),
        completion_item_json(item).get("textEdit"@) == (match item.text_edit {
            Some(edit) => Some(completion_edit_json(edit)),
            None => None,
        }),
        completion_item_json(item).get("textEditText"@) == text_value(item.text_edit_text),
        completion_item_json(item).get("additionalTextEdits"@) == (match item.additional_text_edits {
            Some(edits) => Some(text_edits_json(edits@)),
            None => None,
        }),
        completion_item_json(item).get("commitCharacters"@) == texts_value(item.commit_characters),
        completion_item_json(item).get("command"@) == (match item.command {
            Some(command) => Some(command_json(command)),
            None => None,
        }),
        completion_item_json(item).get("data"@) == opaque_value(item.data),
{
    let v: Seq<Option<JsonV>> = seq![
        (match item.label_details {
            Some(details) => Some(label_details_json(details)),
            None => None,
        }),
        int_value(item.kind),
        (match item.tags {
            Some(tags) => Some(ints_json(tags@)),
            None => None,
        }),
        text_value(item.detail),
        documentation_value(item.documentation),
        bool_value(item.deprecated),
        bool_value(item.preselect),
        text_value(item.sort_text),
        text_value(item.filter_text),
        text_value(item.insert_text),
        int_value(item.insert_text_format),
        int_value(item.insert_text_mode),
        (match item.text_edit {
            Some(edit) => Some(completion_edit_json(edit)),
            None => None,
        }),
        text_value(item.text_edit_text),
        (match item.additional_text_edits {
            Some(edits) => Some(text_edits_json(edits@)),
            None => None,
        }),
        texts_value(item.commit_characters),
        (match item.command {
            Some(command) => Some(command_json(command)),
            None => None,
        }),
        opaque_value(item.data),
    ];
    lemma_item_found(JsonV::Str(item.label@), v);
    reveal(grown);
    assert(completion_item_json(item) == JsonV::Object(item_members(JsonV::Str(item.label@), v)));
}

/// The JSON of a completion item shows each of its fields under its name.
pub proof fn law_item_shown(item: CompletionItem)
    ensures
        shows_item(completion_item_json(item), item),
{
    lemma_item_members(item);
    lemma_shows_documentation(item.documentation);
    match item.label_details {
        Some(details) => lemma_shows_details(details),
        None => {},
    }
    match item.text_edit {
        Some(edit) => lemma_shows_completion_edit(edit),
        None => {},
    }
    match item.additional_text_edits {
        Some(edits) => law_edits_shown(edits),
        None => {},
    }
    match item.command {
        Some(command) => lemma_shows_command(command),
        None => {},
    }
}

/// What is found is a range, or a range to insert at and one to replace, and nothing where there
/// is none.
pub open spec fn shows_edit_range(found: Option<JsonV>, range: Option<EditRange>) -> bool {
    match range {
        Some(EditRange::Range(range)) => shows_rng(found, range),
        Some(EditRange::InsertReplace { insert, replace }) => found matches Some(value)
            && shows_rng(value.get("insert"@), insert) && shows_rng(
            value.get("replace"@),
            replace,
        ),
        None => found is None,
    }
}

/// What is found is an object that shows what the items of a list have in common, and nothing
/// where there is no such thing.
pub open spec fn shows_defaults(
    found: Option<JsonV>,
    defaults: Option<CompletionItemDefaults>,
) -> bool {
    match defaults {
        Some(defaults) => found matches Some(value) && shows_texts(
            value.get("commitCharacters"@),
            defaults.commit_characters,
        ) && shows_edit_range(value.get("editRange"@), defaults.edit_range) && shows_number(
            value.get("insertTextFormat"@),
            defaults.insert_text_format,
        ) && shows_number(value.get("insertTextMode"@), defaults.insert_text_mode)
            && shows_opaque(value.get("data"@), defaults.data),
        None => found is None,
    }
}

proof fn lemma_shows_defaults(defaults: CompletionItemDefaults)
    ensures
        shows_defaults(Some(item_defaults_json(defaults)), Some(defaults)),
{
    broadcast use {json::lemma_member_short, lemma_with_some};

    lemma_item_names();
    reveal_strlit("editRange");
    reveal_strlit("insert");
    reveal_strlit("replace");
    assert("editRange"@.len() == 9);
    assert("insert"@.len() != "replace"@.len());
    match defaults.edit_range {
        Some(EditRange::Range(range)) => lemma_shows_rng(range),
        Some(EditRange::InsertReplace { insert, replace }) => {
            lemma_shows_rng(insert);
            lemma_shows_rng(replace);
        },
        None => {},
    }
}

/// The JSON of a list of completions tells whether it is incomplete, what its items have in
/// common and how that combines with them, and shows each of its items, in order.
pub proof fn law_completions_shown(list: CompletionList)
    ensures
        completion_list_json(list).get("isIncomplete"@) == Some(JsonV::Bool(list.is_incomplete)),
        shows_defaults(completion_list_json(list).get("itemDefaults"@), list.item_defaults),
        match list.apply_kind {
            Some(apply) => completion_list_json(list).get("applyKind"@) matches Some(value)
                && shows_number(value.get("commitCharacters"@), apply.commit_characters)
                && shows_number(value.get("data"@), apply.data),
            None => completion_list_json(list).get("applyKind"@) is None,
        },
        completion_list_json(list).get("items"@) matches Some(JsonV::Array(items)) && items.len()
            == list.items@.len() && forall|k: int|
            0 <= k < items.len() ==> shows_item(#[trigger] items[k], list.items@[k]),
{
    broadcast use {json::lemma_member_short, json::lemma_member_push, lemma_with_some};

    reveal_strlit("isIncomplete");
    reveal_strlit("itemDefaults");
    reveal_strlit("applyKind");
    reveal_strlit("items");
    reveal_strlit("commitCharacters");
    reveal_strlit("data");
    assert("isIncomplete"@[1] != "itemDefaults"@[1]);
    assert("applyKind"@.len() != "items"@.len());
    assert("commitCharacters"@.len() != "data"@.len());
    match list.item_defaults {
        Some(defaults) => lemma_shows_defaults(defaults),
        None => {},
    }
    let items = items_json(list.items@)->Array_0;
    assert forall|k: int| 0 <= k < items.len() implies shows_item(
        #[trigger] items[k],
        list.items@[k],
    ) by {
        law_item_shown(list.items@[k]);
    }
    assert(completion_list_json(list).get("items"@) == Some(items_json(list.items@)));
}

/// A part of a hover is shown: a string, or an object with its language and its text.
pub open spec fn shows_marked(value: JsonV, item: MarkedStringItem) -> bool {
    match item {
        MarkedStringItem::Plain(text) => value == JsonV::Str(text@),
        MarkedStringItem::Marked { language, value: text } => value.get("language"@) == Some(
            JsonV::Str(language@),
        ) && value.get("value"@) == Some(JsonV::Str(text@)),
    }
}

/// The contents of a hover are shown: a text in a markup language, or each of its parts, in
/// order.
pub open spec fn shows_contents(value: JsonV, contents: HoverContents) -> bool {
    match contents {
        HoverContents::Markup(markup) => shows_markup(value, markup),
        HoverContents::Marked(list) => value matches JsonV::Array(items) && items.len()
            == list@.len() && forall|k: int|
            0 <= k < items.len() ==> shows_marked(#[trigger] items[k], list@[k]),
    }
}

/// The JSON of a hover shows its contents, all of them, and its range where it has one; without
/// a hover it is null.
pub proof fn law_hover_shown(result: HoverResult)
    ensures
        match result.0 {
            Some(hover) => {
                &&& hover_result_json(result).get("contents"@) matches Some(value)
                    && shows_contents(value, hover.contents)
                &&& match hover.range {
                    Some(range) => shows_rng(hover_result_json(result).get("range"@), range),
                    None => hover_result_json(result).get("range"@) is None,
                }
            },
            None => hover_result_json(result) == JsonV::Null,
        },
{
    broadcast use {json::lemma_member_short, lemma_with_some};

    reveal_strlit("contents");
    reveal_strlit("range");
    reveal_strlit("language");
    reveal_strlit("value");
    assert("contents"@.len() != "range"@.len());
    assert("language"@.len() != "value"@.len());
    match result.0 {
        Some(hover) => {
            match hover.range {
                Some(range) => lemma_shows_rng(range),
                None => {},
            }
            match hover.contents {
                HoverContents::Markup(markup) => lemma_shows_markup(markup),
                HoverContents::Marked(list) => {
                    let items = hover_contents_json(hover.contents)->Array_0;
                    assert forall|k: int| 0 <= k < items.len() implies shows_marked(
                        #[trigger] items[k],
                        list@[k],
                    ) by {
                        let item = list@[k];
                        assert(items[k] == marked_json(item));
                    }
                },
            }
        },
        None => {},
    }
}

/// A JSON object shows a parameter: its text or its place in the signature, and its
/// documentation.
pub open spec fn shows_parameter(value: JsonV, param: ParameterInfo) -> bool {
    &&& match param.label {
        ParameterLabel::Str(text) => value.get("label"@) == Some(JsonV::Str(text@)),
        ParameterLabel::Offsets { start, end } => value.get("label"@) matches Some(
            JsonV::Array(items),
        ) && items.len() == 2 && items[0] == json::int_view(start as int) && items[1]
            == json::int_view(end as int),
    }
    &&& shows_documentation(value.get("documentation"@), param.documentation)
}

/// A JSON object shows a signature, with each of its parameters in order.
pub open spec fn shows_signature(value: JsonV, sig: SignatureInfo) -> bool {
    &&& value.get("label"@) == Some(JsonV::Str(sig.label@))
    &&& shows_documentation(value.get("documentation"@), sig.documentation)
    &&& match sig.parameters {
        Some(params) => value.get("parameters"@) matches Some(JsonV::Array(items)) && items.len()
            == params@.len() && forall|k: int|
            0 <= k < items.len() ==> shows_parameter(#[trigger] items[k], params@[k]),
        None => value.get("parameters"@) is None,
    }
    &&& shows_number(value.get("activeParameter"@), sig.active_parameter)
}

proof fn lemma_shows_parameter(param: ParameterInfo)
    ensures
        shows_parameter(parameter_json(param), param),
{
    broadcast use {json::lemma_member_short, lemma_with_some};

    reveal_strlit("label");
    reveal_strlit("documentation");
    assert("label"@.len() != "documentation"@.len());
    lemma_shows_documentation(param.documentation);
    assert(parameter_json(param).get("label"@) == Some(parameter_label_json(param.label)));
}

proof fn lemma_shows_signature(sig: SignatureInfo)
    ensures
        shows_signature(signature_json(sig), sig),
{
    broadcast use {json::lemma_member_short, lemma_with_some};

    reveal_strlit("label");
    reveal_strlit("documentation");
    reveal_strlit("parameters");
    reveal_strlit("activeParameter");
    assert("label"@.len() != "documentation"@.len());
    assert("parameters"@.len() != "activeParameter"@.len());
    lemma_shows_documentation(sig.documentation);
    match sig.parameters {
        Some(params) => {
            let items = parameters_json(params@)->Array_0;
            assert forall|k: int| 0 <= k < items.len() implies shows_parameter(
                #[trigger] items[k],
                params@[k],
            ) by {
                lemma_shows_parameter(params@[k]);
            }
            assert(signature_json(sig).get("parameters"@) == Some(parameters_json(params@)));
        },
        None => {},
    }
}

/// The JSON of the signatures at a point shows each of them, in order, and which of them and of
/// their parameters is the active one.
pub proof fn law_signatures_shown(help: SignatureHelp)
    ensures
        signature_help_json(help).get("signatures"@) matches Some(JsonV::Array(items))
            && items.len() == help.signatures@.len() && forall|k: int|
            0 <= k < items.len() ==> shows_signature(#[trigger] items[k], help.signatures@[k]),
        shows_number(signature_help_json(help).get("activeSignature"@), help.active_signature),
        shows_number(signature_help_json(help).get("activeParameter"@), help.active_parameter),
{
    broadcast use {json::lemma_member_short, lemma_with_some};

    reveal_strlit("signatures");
    reveal_strlit("activeSignature");
    reveal_strlit("activeParameter");
    assert("signatures"@.len() != "activeSignature"@.len());
    assert("activeSignature"@[6] != "activeParameter"@[6]);
    let items = help.signatures@.map_values(|s: SignatureInfo| signature_json(s));
    assert forall|k: int| 0 <= k < items.len() implies shows_signature(
        #[trigger] items[k],
        help.signatures@[k],
    ) by {
        lemma_shows_signature(help.signatures@[k]);
    }
    assert(signature_help_json(help).get("signatures"@) == Some(JsonV::Array(items)));
}

/// Where there is no reply, the completions are an empty list that is complete.
pub proof fn law_no_completions_shown()
    ensures
        no_completions().get("isIncomplete"@) == Some(JsonV::Bool(false)),
        no_completions().get("items"@) matches Some(JsonV::Array(items)) && items.len() == 0,
{
    broadcast use json::lemma_member_short;

    reveal_strlit("isIncomplete");
    reveal_strlit("items");
    assert("isIncomplete"@.len() != "items"@.len());
}

} // verus!
