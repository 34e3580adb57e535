//! Conversions from the index and engine model to the LSP result types, and the
//! result types themselves. A [`Span`] and a [`Range`] share their coordinates:
//! zero-based lines, UTF-16 characters, end exclusive.

use vstd::prelude::*;
use vstd::string::*;

use crate::json;
use crate::json::Json;
use crate::json::JsonV;
use crate::order;
use crate::protocol::{Position, Range};
use crate::strmap::StrMap;
use crate::text;

verus! {

/// A span of the index: zero-based lines, UTF-16 characters, end exclusive.
#[derive(Clone, Copy, Debug, PartialEq, Eq, Structural)]
pub struct Span {
    pub start_line: u32,
    pub start_char: u32,
    pub end_line: u32,
    pub end_char: u32,
}

impl Span {
    pub fn new(start_line: u32, start_char: u32, end_line: u32, end_char: u32) -> (span: Span)
        ensures
            span == (Span { start_line, start_char, end_line, end_char }),
    {
        Span { start_line, start_char, end_line, end_char }
    }
}

/// The kinds of symbols that the index knows.
#[derive(Clone, Copy, Debug, PartialEq, Eq, Structural)]
pub enum SymKind {
    Class,
    Trait,
    Interface,
    Object,
    PackageObject,
    Method,
    Macro,
    Constructor,
    Type,
    TypeParameter,
    Field,
    Package,
    LocalValue,
    LocalVariable,
    Parameter,
    SelfParameter,
    UnknownKind,
}

/// Whether an occurrence reads or writes.
#[derive(Clone, Copy, Debug, PartialEq, Eq, Structural)]
pub enum HighlightKind {
    Read,
    Write,
}

/// One edit of the engine: the text that replaces a span.
#[derive(Debug, PartialEq, Eq)]
pub struct TextEditSpan {
    pub span: Span,
    pub new_text: String,
}

/// The edits of a rename by index URI, in URI order.
#[derive(Debug, PartialEq, Eq)]
pub struct WorkspaceEditPlan {
    pub edits: Vec<(String, Vec<TextEditSpan>)>,
    pub occurrence_count: u64,
}

impl WorkspaceEditPlan {
    /// The URIs of the plan are in strictly ascending order.
    pub open spec fn in_order(self) -> bool {
        order::strictly_sorted(plan_uris(self.edits@))
    }
}

/// The URIs of a plan.
pub open spec fn plan_uris(plan: Seq<(String, Vec<TextEditSpan>)>) -> Seq<Seq<char>> {
    plan.map_values(|p: (String, Vec<TextEditSpan>)| p.0@)
}

/// The errors of a conversion.
#[derive(Debug, PartialEq, Eq)]
pub enum LsError {
    /// The URI is not one of the index.
    NotIndexed { uri: String },
}

/// A range within the document that a `file://` URI names.
#[derive(Debug, PartialEq, Eq)]
pub struct Location {
    pub uri: String,
    pub range: Range,
}

/// A range with the kind of its occurrence.
#[derive(Clone, Copy, Debug, PartialEq, Eq, Structural)]
pub struct DocumentHighlight {
    pub range: Range,
    pub kind: DocumentHighlightKind,
}

/// The kind of a highlight.
#[derive(Clone, Copy, Debug, PartialEq, Eq, Structural)]
pub enum DocumentHighlightKind {
    Text,
    Read,
    Write,
}

/// The code of a highlight kind on the wire.
pub open spec fn highlight_code(kind: DocumentHighlightKind) -> int {
    match kind {
        DocumentHighlightKind::Text => 1,
        DocumentHighlightKind::Read => 2,
        DocumentHighlightKind::Write => 3,
    }
}

impl DocumentHighlightKind {
    /// The code on the wire.
    pub fn code(self) -> (code: i32)
        ensures
            code == highlight_code(self),
    {
        match self {
            DocumentHighlightKind::Text => 1,
            DocumentHighlightKind::Read => 2,
            DocumentHighlightKind::Write => 3,
        }
    }
}

/// The kinds of symbols that the server reports.
#[derive(Clone, Copy, Debug, PartialEq, Eq, Structural)]
pub enum SymbolKind {
    Package,
    Class,
    Method,
    Field,
    Constructor,
    Interface,
    Variable,
    Object,
    Null,
    TypeParameter,
}

/// The code of a symbol kind on the wire.
pub open spec fn symbol_code(kind: SymbolKind) -> int {
    match kind {
        SymbolKind::Package => 4,
        SymbolKind::Class => 5,
        SymbolKind::Method => 6,
        SymbolKind::Field => 8,
        SymbolKind::Constructor => 9,
        SymbolKind::Interface => 11,
        SymbolKind::Variable => 13,
        SymbolKind::Object => 19,
        SymbolKind::Null => 21,
        SymbolKind::TypeParameter => 26,
    }
}

impl SymbolKind {
    /// The code on the wire.
    pub fn code(self) -> (code: i32)
        ensures
            code == symbol_code(self),
    {
        match self {
            SymbolKind::Package => 4,
            SymbolKind::Class => 5,
            SymbolKind::Method => 6,
            SymbolKind::Field => 8,
            SymbolKind::Constructor => 9,
            SymbolKind::Interface => 11,
            SymbolKind::Variable => 13,
            SymbolKind::Object => 19,
            SymbolKind::Null => 21,
            SymbolKind::TypeParameter => 26,
        }
    }
}

/// The text that replaces a range.
#[derive(Debug, PartialEq, Eq)]
pub struct TextEdit {
    pub range: Range,
    pub new_text: String,
}

/// Edits by `file://` URI.
pub struct WorkspaceEdit {
    pub changes: StrMap<Vec<TextEdit>>,
}

/// The range of a span.
pub open spec fn range_of(span: Span) -> Range {
    Range {
        start: Position { line: span.start_line, character: span.start_char },
        end: Position { line: span.end_line, character: span.end_char },
    }
}

/// The span of a range.
pub open spec fn span_of(range: Range) -> Span {
    Span {
        start_line: range.start.line,
        start_char: range.start.character,
        end_line: range.end.line,
        end_char: range.end.character,
    }
}

/// The range of a span.
pub fn range(span: Span) -> (range: Range)
    ensures
        range == range_of(span),
{
    Range {
        start: Position { line: span.start_line, character: span.start_char },
        end: Position { line: span.end_line, character: span.end_char },
    }
}

/// The span of a range.
pub fn span(range: &Range) -> (span: Span)
    ensures
        span == span_of(*range),
{
    Span::new(range.start.line, range.start.character, range.end.line, range.end.character)
}

/// Spans and ranges convert into each other without loss.
pub proof fn law_span_range_inverse(span: Span, range: Range)
    ensures
        span_of(range_of(span)) == span,
        range_of(span_of(range)) == range,
{
}

/// A location of a file URI and a span.
pub fn location(file_uri: &str, span: Span) -> (location: Location)
    ensures
        location.uri@ == file_uri@,
        location.range == range_of(span),
{
    Location { uri: file_uri.to_owned(), range: range(span) }
}

/// The reported kind of an indexed one.
pub open spec fn reported_kind(kind: SymKind) -> SymbolKind {
    match kind {
        SymKind::Class | SymKind::Type => SymbolKind::Class,
        SymKind::Trait | SymKind::Interface => SymbolKind::Interface,
        SymKind::Object | SymKind::PackageObject => SymbolKind::Object,
        SymKind::Method | SymKind::Macro => SymbolKind::Method,
        SymKind::Constructor => SymbolKind::Constructor,
        SymKind::TypeParameter => SymbolKind::TypeParameter,
        SymKind::Field => SymbolKind::Field,
        SymKind::Package => SymbolKind::Package,
        SymKind::LocalValue | SymKind::LocalVariable | SymKind::Parameter
        | SymKind::SelfParameter => SymbolKind::Variable,
        SymKind::UnknownKind => SymbolKind::Null,
    }
}

/// The reported kind of an indexed one.
pub fn symbol_kind(kind: SymKind) -> (reported: SymbolKind)
    ensures
        reported == reported_kind(kind),
{
    match kind {
        SymKind::Class => SymbolKind::Class,
        SymKind::Trait | SymKind::Interface => SymbolKind::Interface,
        SymKind::Object | SymKind::PackageObject => SymbolKind::Object,
        SymKind::Method | SymKind::Macro => SymbolKind::Method,
        SymKind::Constructor => SymbolKind::Constructor,
        SymKind::Type => SymbolKind::Class,
        SymKind::TypeParameter => SymbolKind::TypeParameter,
        SymKind::Field => SymbolKind::Field,
        SymKind::Package => SymbolKind::Package,
        SymKind::LocalValue | SymKind::LocalVariable => SymbolKind::Variable,
        SymKind::Parameter | SymKind::SelfParameter => SymbolKind::Variable,
        SymKind::UnknownKind => SymbolKind::Null,
    }
}

/// The reported kind of a highlight.
pub fn highlight_kind(kind: HighlightKind) -> (reported: DocumentHighlightKind)
    ensures
        reported == (match kind {
            HighlightKind::Read => DocumentHighlightKind::Read,
            HighlightKind::Write => DocumentHighlightKind::Write,
        }),
{
    match kind {
        HighlightKind::Read => DocumentHighlightKind::Read,
        HighlightKind::Write => DocumentHighlightKind::Write,
    }
}

/// The range and the text of an edit.
pub open spec fn edit_view(edit: TextEdit) -> (Range, Seq<char>) {
    (edit.range, edit.new_text@)
}

/// The ranges and texts of a list of edits.
pub open spec fn edit_views(edits: Seq<TextEdit>) -> Seq<(Range, Seq<char>)> {
    edits.map_values(|e: TextEdit| edit_view(e))
}

/// The ranges and texts that a list of engine edits stands for.
pub open spec fn planned_views(edits: Seq<TextEditSpan>) -> Seq<(Range, Seq<char>)> {
    edits.map_values(|e: TextEditSpan| (range_of(e.span), e.new_text@))
}

impl WorkspaceEdit {
    /// The ranges and texts of the edits of each URI.
    pub open spec fn edits_by_uri(self) -> Map<Seq<char>, Seq<(Range, Seq<char>)>> {
        self.changes@.map_values(|edits: Vec<TextEdit>| edit_views(edits@))
    }
}

/// The edits that a map holds for a URI.
pub open spec fn edits_at(
    edits: Map<Seq<char>, Seq<(Range, Seq<char>)>>,
    uri: Seq<char>,
) -> Seq<(Range, Seq<char>)> {
    if edits.contains_key(uri) {
        edits[uri]
    } else {
        seq![]
    }
}

/// The edits of a plan by the file URIs that its URIs resolved to. Where two
/// resolve to one, the edits of the later follow those of the earlier.
pub open spec fn resolved_edits(
    plan: Seq<(String, Vec<TextEditSpan>)>,
    files: Seq<Seq<char>>,
) -> Map<Seq<char>, Seq<(Range, Seq<char>)>>
    decreases plan.len(),
{
    if plan.len() == 0 {
        Map::empty()
    } else {
        let earlier = resolved_edits(plan.drop_last(), files.drop_last());
        earlier.insert(
            files.last(),
            edits_at(earlier, files.last()) + planned_views(plan.last().1@),
        )
    }
}

/// The number of edits in a plan.
pub open spec fn planned_count(plan: Seq<(String, Vec<TextEditSpan>)>) -> nat
    decreases plan.len(),
{
    if plan.len() == 0 {
        0
    } else {
        planned_count(plan.drop_last()) + plan.last().1@.len()
    }
}

/// The number of edits of the given URIs.
pub open spec fn edit_count(
    edits: Map<Seq<char>, Seq<(Range, Seq<char>)>>,
    uris: Set<Seq<char>>,
) -> nat
    decreases uris.len(),
{
    if uris.finite() && uris.len() > 0 {
        let uri = uris.choose();
        edits[uri].len() + edit_count(edits, uris.remove(uri))
    } else {
        0
    }
}

/// The edits of one URI count once, whichever is counted first.
proof fn lemma_edit_count(
    edits: Map<Seq<char>, Seq<(Range, Seq<char>)>>,
    uris: Set<Seq<char>>,
    uri: Seq<char>,
)
    requires
        uris.finite(),
        uris.contains(uri),
    ensures
        edit_count(edits, uris) == edits[uri].len() + edit_count(edits, uris.remove(uri)),
    decreases uris.len(),
{
    let first = uris.choose();
    if first != uri {
        lemma_edit_count(edits, uris.remove(first), uri);
        lemma_edit_count(edits, uris.remove(uri), first);
        assert(uris.remove(first).remove(uri) =~= uris.remove(uri).remove(first));
    }
}

/// The count depends on the edits of the counted URIs alone.
proof fn lemma_edit_count_same(
    a: Map<Seq<char>, Seq<(Range, Seq<char>)>>,
    b: Map<Seq<char>, Seq<(Range, Seq<char>)>>,
    uris: Set<Seq<char>>,
)
    requires
        uris.finite(),
        forall|uri: Seq<char>| #[trigger] uris.contains(uri) ==> a[uri] == b[uri],
    ensures
        edit_count(a, uris) == edit_count(b, uris),
    decreases uris.len(),
{
    if uris.len() > 0 {
        assert(uris.contains(uris.choose()));
        lemma_edit_count_same(a, b, uris.remove(uris.choose()));
    }
}

/// An edit of a plan is among those of the file that its URI resolved to.
pub open spec fn keeps_edit(
    plan: Seq<(String, Vec<TextEditSpan>)>,
    files: Seq<Seq<char>>,
    i: int,
    j: int,
) -> bool {
    let all = resolved_edits(plan, files);
    all.contains_key(files[i]) && all[files[i]].contains(planned_views(plan[i].1@)[j])
}

/// A rename drops no edit: every edit of a plan is among those of the file that its URI
/// resolved to, and there are as many in the end as the plan has.
pub proof fn law_no_edit_dropped(
    plan: Seq<(String, Vec<TextEditSpan>)>,
    files: Seq<Seq<char>>,
)
    requires
        files.len() == plan.len(),
    ensures
        resolved_edits(plan, files).dom().finite(),
        edit_count(resolved_edits(plan, files), resolved_edits(plan, files).dom())
            == planned_count(plan),
        forall|i: int, j: int|
            0 <= i < plan.len() && 0 <= j < plan[i].1@.len() ==> #[trigger] keeps_edit(
                plan,
                files,
                i,
                j,
            ),
    decreases plan.len(),
{
    let all = resolved_edits(plan, files);
    if plan.len() > 0 {
        let earlier = resolved_edits(plan.drop_last(), files.drop_last());
        let file = files.last();
        let added = planned_views(plan.last().1@);
        law_no_edit_dropped(plan.drop_last(), files.drop_last());
        let rest = all.dom().remove(file);
        assert(rest =~= earlier.dom().remove(file));
        lemma_edit_count(all, all.dom(), file);
        lemma_edit_count_same(all, earlier, rest);
        if earlier.contains_key(file) {
            lemma_edit_count(earlier, earlier.dom(), file);
        } else {
            assert(rest =~= earlier.dom());
        }
        assert forall|i: int, j: int|
            0 <= i < plan.len() && 0 <= j < plan[i].1@.len() implies #[trigger] keeps_edit(
            plan,
            files,
            i,
            j,
        ) by {
            let edit = planned_views(plan[i].1@)[j];
            if i < plan.len() - 1 {
                assert(files.drop_last()[i] == files[i]);
                assert(plan.drop_last()[i] == plan[i]);
                assert(keeps_edit(plan.drop_last(), files.drop_last(), i, j));
                assert(earlier[files[i]].contains(edit));
                let k = earlier[files[i]].index_of(edit);
                assert(all[files[i]][k] == edit);
            } else {
                assert(all[file][edits_at(earlier, file).len() + j] == edit);
            }
        }
    } else {
        assert(all.dom() =~= Set::empty());
    }
}

/// How many edits of a plan belong to a file.
pub open spec fn edits_for(
    plan: Seq<(String, Vec<TextEditSpan>)>,
    files: Seq<Seq<char>>,
    file: Seq<char>,
) -> nat
    decreases plan.len(),
{
    if plan.len() == 0 {
        0
    } else {
        edits_for(plan.drop_last(), files.drop_last(), file) + (if files.last() == file {
            plan.last().1@.len()
        } else {
            0
        })
    }
}

/// An edit replaces the coordinates of a span with a text.
pub open spec fn replaces(edit: TextEdit, span: Span, new_text: Seq<char>) -> bool {
    &&& edit.range.start.line == span.start_line
    &&& edit.range.start.character == span.start_char
    &&& edit.range.end.line == span.end_line
    &&& edit.range.end.character == span.end_char
    &&& edit.new_text@ == new_text
}

/// The edits of a file are those of the plan that belong to it, in number and in place: the
/// `j`-th edit of a URI stands behind those of the earlier URIs of its file.
proof fn lemma_edit_placed(
    plan: Seq<(String, Vec<TextEditSpan>)>,
    files: Seq<Seq<char>>,
    file: Seq<char>,
)
    requires
        files.len() == plan.len(),
    ensures
        resolved_edits(plan, files).contains_key(file) <==> files.contains(file),
        edits_at(resolved_edits(plan, files), file).len() == edits_for(plan, files, file),
    decreases plan.len(),
{
    if plan.len() > 0 {
        let shorter = files.drop_last();
        lemma_edit_placed(plan.drop_last(), shorter, file);
        assert(files =~= shorter.push(files.last()));
        if files.last() == file {
            assert(files[files.len() - 1] == file);
        } else if files.contains(file) {
            let k = files.index_of(file);
            assert(shorter[k] == file);
        } else if shorter.contains(file) {
            let k = shorter.index_of(file);
            assert(files[k] == file);
        }
    }
}

proof fn lemma_edit_at(
    plan: Seq<(String, Vec<TextEditSpan>)>,
    files: Seq<Seq<char>>,
    i: int,
    j: int,
)
    requires
        files.len() == plan.len(),
        0 <= i < plan.len(),
        0 <= j < plan[i].1@.len(),
    ensures
        ({
            let all = edits_at(resolved_edits(plan, files), files[i]);
            let at = edits_for(plan.take(i), files.take(i), files[i]) + j;
            let edit = plan[i].1@[j];
            &&& at < all.len()
            &&& all[at].0.start.line == edit.span.start_line
            &&& all[at].0.start.character == edit.span.start_char
            &&& all[at].0.end.line == edit.span.end_line
            &&& all[at].0.end.character == edit.span.end_char
            &&& all[at].1 == edit.new_text@
        }),
    decreases plan.len(),
{
    let shorter = files.drop_last();
    let earlier = plan.drop_last();
    lemma_edit_placed(earlier, shorter, files[i]);
    if i < plan.len() - 1 {
        lemma_edit_at(earlier, shorter, i, j);
        assert(earlier.take(i) =~= plan.take(i));
        assert(shorter.take(i) =~= files.take(i));
    } else {
        assert(earlier =~= plan.take(i));
        assert(shorter =~= files.take(i));
    }
}

/// Each edit of a plan is carried out where the plan says: among the edits of its file, behind
/// those of the earlier URIs that resolve to the file and in the order of its own URI, stands
/// one with the lines and characters of its own span and with its own text. The files with
/// edits are those that URIs resolved to, and a file has no other edits.
pub proof fn law_each_edit_in_place(
    plan: Seq<(String, Vec<TextEditSpan>)>,
    files: Seq<Seq<char>>,
    edit: WorkspaceEdit,
)
    requires
        files.len() == plan.len(),
        edit.edits_by_uri() == resolved_edits(plan, files),
    ensures
        forall|file: Seq<char>| #[trigger]
            edit.changes@.contains_key(file) <==> files.contains(file),
        forall|file: Seq<char>| #[trigger]
            edit.changes@.contains_key(file) ==> edit.changes@[file]@.len() == edits_for(
                plan,
                files,
                file,
            ),
        forall|i: int, j: int|
            0 <= i < plan.len() && 0 <= j < plan[i].1@.len() ==> replaces(
                edit.changes@[files[i]]@[edits_for(plan.take(i), files.take(i), files[i]) + j],
                (#[trigger] plan[i].1@[j]).span,
                plan[i].1@[j].new_text@,
            ),
{
    let views = |edits: Vec<TextEdit>| edit_views(edits@);
    let all = edit.changes@.map_values(views);
    assert(all == edit.edits_by_uri());
    assert forall|file: Seq<char>| #[trigger]
        edit.changes@.contains_key(file) <==> files.contains(file) by {
        lemma_edit_placed(plan, files, file);
        assert(all.contains_key(file) == edit.changes@.contains_key(file));
    }
    assert forall|file: Seq<char>| #[trigger]
        edit.changes@.contains_key(file) implies edit.changes@[file]@.len() == edits_for(
        plan,
        files,
        file,
    ) by {
        lemma_edit_placed(plan, files, file);
        assert(all.contains_key(file));
        assert(all[file] == edit_views(edit.changes@[file]@));
    }
    assert forall|i: int, j: int|
        0 <= i < plan.len() && 0 <= j < plan[i].1@.len() implies replaces(
        edit.changes@[files[i]]@[edits_for(plan.take(i), files.take(i), files[i]) + j],
        (#[trigger] plan[i].1@[j]).span,
        plan[i].1@[j].new_text@,
    ) by {
        let file = files[i];
        lemma_edit_placed(plan, files, file);
        lemma_edit_at(plan, files, i, j);
        assert(files.contains(file));
        assert(all.contains_key(file));
        assert(all[file] == edit_views(edit.changes@[file]@));
    }
}

/// Where no other URI of a plan resolves to a file, the edits of the file are those of the
/// URI one by one, and edits of different spans have different ranges.
pub proof fn law_sole_edits_in_place(
    plan: Seq<(String, Vec<TextEditSpan>)>,
    files: Seq<Seq<char>>,
    edit: WorkspaceEdit,
    i: int,
)
    requires
        files.len() == plan.len(),
        edit.edits_by_uri() == resolved_edits(plan, files),
        0 <= i < plan.len(),
        forall|k: int| 0 <= k < files.len() && k != i ==> #[trigger] files[k] != files[i],
    ensures
        edit.changes@.contains_key(files[i]),
        edit.changes@[files[i]]@.len() == plan[i].1@.len(),
        forall|j: int|
            0 <= j < plan[i].1@.len() ==> replaces(
                #[trigger] edit.changes@[files[i]]@[j],
                plan[i].1@[j].span,
                plan[i].1@[j].new_text@,
            ),
        forall|j: int, k: int|
            0 <= j < plan[i].1@.len() && 0 <= k < plan[i].1@.len() && plan[i].1@[j].span
                != plan[i].1@[k].span ==> (#[trigger] edit.changes@[files[i]]@[j]).range != (
            #[trigger] edit.changes@[files[i]]@[k]).range,
{
    let file = files[i];
    law_each_edit_in_place(plan, files, edit);
    assert(files.contains(file));
    lemma_edits_elsewhere(plan.take(i), files.take(i), file);
    lemma_sole_edits(plan, files, i);
    assert forall|j: int| 0 <= j < plan[i].1@.len() implies replaces(
        #[trigger] edit.changes@[file]@[j],
        plan[i].1@[j].span,
        plan[i].1@[j].new_text@,
    ) by {
        let given = plan[i].1@[j];
    }
}

proof fn lemma_edits_elsewhere(
    plan: Seq<(String, Vec<TextEditSpan>)>,
    files: Seq<Seq<char>>,
    file: Seq<char>,
)
    requires
        files.len() == plan.len(),
        forall|k: int| 0 <= k < files.len() ==> #[trigger] files[k] != file,
    ensures
        edits_for(plan, files, file) == 0,
    decreases plan.len(),
{
    if plan.len() > 0 {
        assert(files[files.len() - 1] != file);
        assert forall|k: int| 0 <= k < files.len() - 1 implies #[trigger] files.drop_last()[k]
            != file by {
            assert(files[k] != file);
        }
        lemma_edits_elsewhere(plan.drop_last(), files.drop_last(), file);
    }
}

proof fn lemma_sole_edits(
    plan: Seq<(String, Vec<TextEditSpan>)>,
    files: Seq<Seq<char>>,
    i: int,
)
    requires
        files.len() == plan.len(),
        0 <= i < plan.len(),
        forall|k: int| 0 <= k < files.len() && k != i ==> #[trigger] files[k] != files[i],
    ensures
        edits_for(plan, files, files[i]) == plan[i].1@.len(),
    decreases plan.len(),
{
    let shorter = files.drop_last();
    assert forall|k: int| 0 <= k < shorter.len() && k != i implies #[trigger] shorter[k]
        != files[i] by {
        assert(files[k] != files[i]);
    }
    if i < plan.len() - 1 {
        assert(files[files.len() - 1] != files[i]);
        lemma_sole_edits(plan.drop_last(), shorter, i);
    } else {
        lemma_edits_elsewhere(plan.drop_last(), shorter, files[i]);
    }
}

/// The resolver may answer each of the first `n` URIs of a plan with `files[i]`.
pub open spec fn resolves<F: Fn(&str) -> Option<String>>(
    to_file_uri: F,
    plan: Seq<(String, Vec<TextEditSpan>)>,
    files: Seq<Seq<char>>,
) -> bool {
    &&& files.len() <= plan.len()
    &&& forall|i: int|
        0 <= i < files.len() ==> resolves_to(to_file_uri, (#[trigger] plan[i]).0@, Some(files[i]))
}

/// The resolver may answer a URI with `file`.
pub open spec fn resolves_to<F: Fn(&str) -> Option<String>>(
    to_file_uri: F,
    uri: Seq<char>,
    file: Option<Seq<char>>,
) -> bool {
    exists|key: &str, answer: Option<String>| #[trigger]
        to_file_uri.ensures((key,), answer) && key@ == uri && match answer {
            Some(found) => file == Some(found@),
            None => file is None,
        }
}

fn text_edits(edits: &Vec<TextEditSpan>) -> (list: Vec<TextEdit>)
    ensures
        edit_views(list@) == planned_views(edits@),
{
    let mut list: Vec<TextEdit> = Vec::new();
    let mut i: usize = 0;
    while i < edits.len()
        invariant
            i <= edits@.len(),
            edit_views(list@) == planned_views(edits@).take(i as int),
        decreases edits.len() - i,
    {
        let ghost before = list@;
        let edit = TextEdit { range: range(edits[i].span), new_text: edits[i].new_text.clone() };
        list.push(edit);
        i += 1;
        assert(edit_views(list@) =~= edit_views(before).push(edit_view(list@[i - 1])));
        assert(planned_views(edits@).take(i as int) =~= planned_views(edits@).take(i - 1).push(
            planned_views(edits@)[i - 1],
        ));
    }
    assert(planned_views(edits@).take(i as int) =~= planned_views(edits@));
    list
}

/// `uri` is the least URI of a plan that does not resolve: it may be answered with no
/// file, and each URI of the plan that comes before it with one.
pub open spec fn least_unresolved<F: Fn(&str) -> Option<String>>(
    to_file_uri: F,
    plan: Seq<(String, Vec<TextEditSpan>)>,
    uri: Seq<char>,
) -> bool {
    &&& plan_uris(plan).contains(uri)
    &&& resolves_to(to_file_uri, uri, None)
    &&& forall|i: int|
        0 <= i < plan.len() && order::before(#[trigger] plan_uris(plan)[i], uri) ==> resolves_some(
            to_file_uri,
            plan_uris(plan)[i],
        )
}

/// The resolver may answer a URI with a file.
pub open spec fn resolves_some<F: Fn(&str) -> Option<String>>(
    to_file_uri: F,
    uri: Seq<char>,
) -> bool {
    exists|file: Seq<char>| #[trigger] resolves_to(to_file_uri, uri, Some(file))
}

proof fn lemma_least<F: Fn(&str) -> Option<String>>(
    to_file_uri: F,
    plan: Seq<(String, Vec<TextEditSpan>)>,
    files: Seq<Seq<char>>,
)
    requires
        resolves(to_file_uri, plan, files),
        files.len() < plan.len(),
        resolves_to(to_file_uri, plan[files.len() as int].0@, None),
        order::strictly_sorted(plan_uris(plan)),
    ensures
        least_unresolved(to_file_uri, plan, plan[files.len() as int].0@),
{
    let at = files.len() as int;
    let uri = plan[at].0@;
    assert(plan_uris(plan)[at] == uri);
    assert forall|i: int|
        0 <= i < plan.len() && order::before(
            #[trigger] plan_uris(plan)[i],
            uri,
        ) implies resolves_some(to_file_uri, plan_uris(plan)[i]) by {
        order::lemma_before_total(plan_uris(plan)[i], uri);
        if i > at {
            assert(order::before(plan_uris(plan)[at], plan_uris(plan)[i]));
        }
        assert(i < at);
        assert(resolves_to(to_file_uri, plan[i].0@, Some(files[i])));
    }
}

/// The edits of a plan by file URI. A URI that resolves to no file fails the whole
/// conversion with the first such URI, which is the least one where the plan is in order.
/// URIs that resolve to one file share a list. A rename never drops edits silently.
pub fn workspace_edit<F: Fn(&str) -> Option<String>>(
    plan: &WorkspaceEditPlan,
    to_file_uri: F,
) -> (result: Result<WorkspaceEdit, LsError>)
    requires
        forall|uri: &str| to_file_uri.requires((uri,)),
    ensures
        exists|files: Seq<Seq<char>>| #[trigger] resolves(to_file_uri, plan.edits@, files) && match result {
            Ok(edit) => files.len() == plan.edits@.len() && edit.edits_by_uri() == resolved_edits(
                plan.edits@,
                files,
            ),
            Err(LsError::NotIndexed { uri }) => files.len() < plan.edits@.len() && uri@
                == plan.edits@[files.len() as int].0@ && resolves_to(to_file_uri, uri@, None),
        },
        plan.in_order() ==> (result matches Err(LsError::NotIndexed { uri }) ==> least_unresolved(
            to_file_uri,
            plan.edits@,
            uri@,
        )),
{
    let mut changes: StrMap<Vec<TextEdit>> = StrMap::new();
    let ghost mut files: Seq<Seq<char>> = Seq::empty();
    let mut i: usize = 0;
    let ghost views = |edits: Vec<TextEdit>| edit_views(edits@);
    assert(changes@.map_values(views) =~= Map::empty());
    while i < plan.edits.len()
        invariant
            i <= plan.edits@.len(),
            files.len() == i,
            forall|uri: &str| to_file_uri.requires((uri,)),
            resolves(to_file_uri, plan.edits@, files),
            views == (|edits: Vec<TextEdit>| edit_views(edits@)),
            changes@.map_values(views) == resolved_edits(plan.edits@.take(i as int), files),
        decreases plan.edits.len() - i,
    {
        let uri = plan.edits[i].0.as_str();
        match to_file_uri(uri) {
            None => {
                assert(resolves_to(to_file_uri, uri@, None));
                proof {
                    if plan.in_order() {
                        lemma_least(to_file_uri, plan.edits@, files);
                    }
                }
                return Err(LsError::NotIndexed { uri: uri.to_owned() });
            },
            Some(file) => {
                let mut added = text_edits(&plan.edits[i].1);
                let ghost before = changes@;
                let ghost more = added@;
                let mut list = match changes.remove(file.as_str()) {
                    Some(found) => found,
                    None => Vec::new(),
                };
                let ghost found = list@;
                list.append(&mut added);
                assert(edit_views(found) =~= edits_at(before.map_values(views), file@));
                assert(edit_views(list@) =~= edit_views(found) + edit_views(more));
                proof {
                    assert(resolves_to(to_file_uri, uri@, Some(file@)));
                    let longer = files.push(file@);
                    assert forall|j: int| 0 <= j < longer.len() implies resolves_to(
                        to_file_uri,
                        (#[trigger] plan.edits@[j]).0@,
                        Some(longer[j]),
                    ) by {
                        if j < files.len() {
                            assert(longer[j] == files[j]);
                        }
                    }
                    assert(longer.drop_last() =~= files);
                    assert(plan.edits@.take(i + 1).drop_last() =~= plan.edits@.take(i as int));
                    files = longer;
                }
                let ghost name = file@;
                changes.insert(file, list);
                assert(changes@.map_values(views) =~= before.map_values(views).insert(
                    name,
                    edits_at(before.map_values(views), name) + edit_views(more),
                ));
                i += 1;
            },
        }
    }
    assert(plan.edits@.take(i as int) =~= plan.edits@);
    Ok(WorkspaceEdit { changes })
}

/// The JSON of a position.
pub open spec fn position_json(position: Position) -> JsonV {
    JsonV::Object(
        seq![
            ("line"@, json::int_view(position.line as int)),
            ("character"@, json::int_view(position.character as int)),
        ],
    )
}

/// The JSON of a range.
pub open spec fn range_json(range: Range) -> JsonV {
    JsonV::Object(
        seq![("start"@, position_json(range.start)), ("end"@, position_json(range.end))],
    )
}

/// The JSON of a location.
pub open spec fn location_json(uri: Seq<char>, range: Range) -> JsonV {
    JsonV::Object(seq![("uri"@, JsonV::Str(uri)), ("range"@, range_json(range))])
}

/// The JSON of a highlight.
pub open spec fn highlight_json(highlight: DocumentHighlight) -> JsonV {
    JsonV::Object(
        seq![
            ("range"@, range_json(highlight.range)),
            ("kind"@, json::int_view(highlight_code(highlight.kind))),
        ],
    )
}

/// The JSON of an edit.
pub open spec fn edit_json(edit: (Range, Seq<char>)) -> JsonV {
    JsonV::Object(seq![("range"@, range_json(edit.0)), ("newText"@, JsonV::Str(edit.1))])
}

impl Position {
    /// The JSON of the position.
    pub fn to_json(&self) -> (json: Json)
        ensures
            json@ == position_json(*self),
    {
        let mut members: Vec<(String, Json)> = Vec::new();
        assert(json::member_views(members@) =~= seq![]);
        json::put(&mut members, "line", json::natural(self.line as u64));
        json::put(&mut members, "character", json::natural(self.character as u64));
        let json = json::object(members);
        assert(json@->Object_0 =~= position_json(*self)->Object_0);
        json
    }
}

impl Range {
    /// The JSON of the range.
    pub fn to_json(&self) -> (json: Json)
        ensures
            json@ == range_json(*self),
    {
        let mut members: Vec<(String, Json)> = Vec::new();
        assert(json::member_views(members@) =~= seq![]);
        json::put(&mut members, "start", self.start.to_json());
        json::put(&mut members, "end", self.end.to_json());
        let json = json::object(members);
        assert(json@->Object_0 =~= range_json(*self)->Object_0);
        json
    }
}

impl Location {
    /// The JSON of the location.
    pub fn to_json(&self) -> (json: Json)
        ensures
            json@ == location_json(self.uri@, self.range),
    {
        let mut members: Vec<(String, Json)> = Vec::new();
        assert(json::member_views(members@) =~= seq![]);
        json::put(&mut members, "uri", json::string(self.uri.as_str()));
        json::put(&mut members, "range", self.range.to_json());
        let json = json::object(members);
        assert(json@->Object_0 =~= location_json(self.uri@, self.range)->Object_0);
        json
    }
}

impl DocumentHighlight {
    /// The JSON of the highlight.
    pub fn to_json(&self) -> (json: Json)
        ensures
            json@ == highlight_json(*self),
    {
        let mut members: Vec<(String, Json)> = Vec::new();
        assert(json::member_views(members@) =~= seq![]);
        json::put(&mut members, "range", self.range.to_json());
        json::put(&mut members, "kind", json::number(self.kind.code() as i64));
        let json = json::object(members);
        assert(json@->Object_0 =~= highlight_json(*self)->Object_0);
        json
    }
}

impl TextEdit {
    /// The JSON of the edit.
    pub fn to_json(&self) -> (json: Json)
        ensures
            json@ == edit_json(edit_view(*self)),
    {
        let mut members: Vec<(String, Json)> = Vec::new();
        assert(json::member_views(members@) =~= seq![]);
        json::put(&mut members, "range", self.range.to_json());
        json::put(&mut members, "newText", json::string(self.new_text.as_str()));
        let json = json::object(members);
        assert(json@->Object_0 =~= edit_json(edit_view(*self))->Object_0);
        json
    }
}

/// The JSON of a list of edits.
pub open spec fn edits_json(edits: Seq<(Range, Seq<char>)>) -> JsonV {
    JsonV::Array(edits.map_values(|e: (Range, Seq<char>)| edit_json(e)))
}

/// The JSON of a list of edits.
pub fn edits_to_json(edits: &Vec<TextEdit>) -> (json: Json)
    ensures
        json@ == edits_json(edit_views(edits@)),
{
    let mut items: Vec<Json> = Vec::new();
    let ghost all = edits_json(edit_views(edits@))->Array_0;
    let mut i: usize = 0;
    assert(json::views(items@) =~= all.take(0));
    while i < edits.len()
        invariant
            i <= edits@.len(),
            all == edits_json(edit_views(edits@))->Array_0,
            json::views(items@) == all.take(i as int),
        decreases edits.len() - i,
    {
        json::push(&mut items, edits[i].to_json());
        i += 1;
        assert(all.take(i as int) =~= all.take(i - 1).push(all[i - 1]));
    }
    assert(all.take(i as int) =~= all);
    json::array(items)
}

/// The members of the `changes` object for a sorted list of URIs.
pub open spec fn change_members(
    uris: Seq<Seq<char>>,
    edits: Map<Seq<char>, Seq<(Range, Seq<char>)>>,
) -> Seq<(Seq<char>, JsonV)> {
    uris.map_values(|uri: Seq<char>| (uri, edits_json(edits[uri])))
}

impl WorkspaceEdit {
    /// The JSON of the edits: a `changes` object with the URIs in order.
    pub fn to_json(&self) -> (json: Json)
        ensures
            exists|uris: Seq<Seq<char>>| #[trigger]
                crate::order::strictly_sorted(uris) && uris.to_set() == self.edits_by_uri().dom()
                    && json@ == JsonV::Object(
                    seq![
                        ("changes"@, JsonV::Object(change_members(uris, self.edits_by_uri()))),
                    ],
                ),
    {
        let keys = self.changes.sorted_keys();
        let ghost uris = text::texts(keys@);
        let ghost all = change_members(uris, self.edits_by_uri());
        let mut members: Vec<(String, Json)> = Vec::new();
        let mut i: usize = 0;
        assert(json::member_views(members@) =~= all.take(0));
        while i < keys.len()
            invariant
                i <= keys@.len(),
                uris == text::texts(keys@),
                uris.to_set() == self.changes@.dom(),
                all == change_members(uris, self.edits_by_uri()),
                json::member_views(members@) == all.take(i as int),
            decreases keys.len() - i,
        {
            assert(uris[i as int] == keys@[i as int]@);
            assert(uris.contains(uris[i as int]));
            assert(self.changes@.dom().contains(uris[i as int]));
            let edits = self.changes.get(keys[i].as_str());
            match edits {
                Some(list) => {
                    json::put(&mut members, keys[i].as_str(), edits_to_json(list));
                },
                None => {},
            }
            i += 1;
            assert(all.take(i as int) =~= all.take(i - 1).push(all[i - 1]));
        }
        assert(all.take(i as int) =~= all);
        let changes = json::object(members);
        let mut outer: Vec<(String, Json)> = Vec::new();
        assert(json::member_views(outer@) =~= seq![]);
        json::put(&mut outer, "changes", changes);
        let json = json::object(outer);
        proof {
            assert(json@->Object_0 =~= seq![("changes"@, JsonV::Object(all))]);
            assert(self.edits_by_uri().dom() =~= self.changes@.dom());
            assert(crate::order::strictly_sorted(uris));
        }
        json
    }
}

/// A JSON object shows a position.
pub open spec fn shows_position(value: JsonV, line: u32, character: u32) -> bool {
    &&& value.get("line"@) == Some(json::int_view(line as int))
    &&& value.get("character"@) == Some(json::int_view(character as int))
}

/// A JSON object shows a range.
pub open spec fn shows_range(value: JsonV, range: Range) -> bool {
    &&& value.get("start"@) matches Some(start) && shows_position(
        start,
        range.start.line,
        range.start.character,
    )
    &&& value.get("end"@) matches Some(end) && shows_position(
        end,
        range.end.line,
        range.end.character,
    )
}

/// A JSON object shows an edit.
pub open spec fn shows_edit(value: JsonV, edit: TextEdit) -> bool {
    &&& value.get("range"@) matches Some(range) && shows_range(range, edit.range)
    &&& value.get("newText"@) == Some(JsonV::Str(edit.new_text@))
}

proof fn lemma_shows_range(range: Range)
    ensures
        shows_range(range_json(range), range),
{
    broadcast use json::lemma_member_short;

    reveal_strlit("line");
    reveal_strlit("character");
    reveal_strlit("start");
    reveal_strlit("end");
    assert("line"@.len() != "character"@.len());
    assert("start"@.len() != "end"@.len());
}

proof fn lemma_shows_edit(edit: TextEdit)
    ensures
        shows_edit(edit_json(edit_view(edit)), edit),
{
    broadcast use json::lemma_member_short;

    lemma_shows_range(edit.range);
    reveal_strlit("range");
    reveal_strlit("newText");
    assert("range"@.len() != "newText"@.len());
}

/// The JSON of a range, of a location and of a highlight shows the coordinates that they hold,
/// with their URI and with the protocol's number for their kind.
pub proof fn law_places_shown(location: Location, highlight: DocumentHighlight)
    ensures
        shows_range(range_json(location.range), location.range),
        location_json(location.uri@, location.range).get("uri"@) == Some(
            JsonV::Str(location.uri@),
        ),
        location_json(location.uri@, location.range).get("range"@) matches Some(range)
            && shows_range(range, location.range),
        highlight_json(highlight).get("range"@) matches Some(range) && shows_range(
            range,
            highlight.range,
        ),
        highlight_json(highlight).get("kind"@) == Some(
            json::int_view(
                if highlight.kind is Text {
                    1
                } else if highlight.kind is Read {
                    2
                } else {
                    3
                },
            ),
        ),
{
    broadcast use json::lemma_member_short;

    lemma_shows_range(location.range);
    lemma_shows_range(highlight.range);
    reveal_strlit("uri");
    reveal_strlit("range");
    reveal_strlit("kind");
    assert("uri"@.len() != "range"@.len());
    assert("kind"@.len() != "range"@.len());
}

/// The JSON of a list of edits shows each of them, in order.
pub proof fn law_edits_shown(edits: Seq<TextEdit>)
    ensures
        edits_json(edit_views(edits)) matches JsonV::Array(items) && items.len() == edits.len()
            && forall|k: int|
            0 <= k < edits.len() ==> shows_edit(#[trigger] items[k], edits[k]),
{
    let items = edits_json(edit_views(edits))->Array_0;
    assert forall|k: int| 0 <= k < edits.len() implies shows_edit(#[trigger] items[k], edits[k]) by {
        lemma_shows_edit(edits[k]);
    }
}

/// The JSON of the edits of a rename has a member for each file with edits and for no other,
/// which shows each of the edits of the file, in order.
pub proof fn law_rename_shown(edit: WorkspaceEdit, uris: Seq<Seq<char>>, uri: Seq<char>)
    requires
        order::strictly_sorted(uris),
        uris.to_set() == edit.edits_by_uri().dom(),
    ensures
        match JsonV::Object(change_members(uris, edit.edits_by_uri())).get(uri) {
            Some(value) => edit.changes@.contains_key(uri) && (value matches JsonV::Array(items)
                && items.len() == edit.changes@[uri]@.len() && forall|k: int|
                0 <= k < items.len() ==> shows_edit(
                    #[trigger] items[k],
                    edit.changes@[uri]@[k],
                )),
            None => !edit.changes@.contains_key(uri),
        },
{
    let edits = edit.edits_by_uri();
    let members = change_members(uris, edits);
    assert(edits.contains_key(uri) == edit.changes@.contains_key(uri));
    lemma_change_member(uris, edits, uri);
    assert(uris.to_set().contains(uri) == uris.contains(uri));
    if edits.contains_key(uri) {
        assert(edits[uri] == edit_views(edit.changes@[uri]@));
        law_edits_shown(edit.changes@[uri]@);
    }
}

proof fn lemma_change_member(
    uris: Seq<Seq<char>>,
    edits: Map<Seq<char>, Seq<(Range, Seq<char>)>>,
    uri: Seq<char>,
)
    ensures
        json::member(change_members(uris, edits), uri) == (if uris.contains(uri) {
            Some(edits_json(edits[uri]))
        } else {
            None
        }),
    decreases uris.len(),
{
    let members = change_members(uris, edits);
    if uris.len() > 0 {
        let rest = uris.drop_first();
        assert(members.drop_first() =~= change_members(rest, edits));
        lemma_change_member(rest, edits, uri);
        if uris[0] != uri {
            if uris.contains(uri) {
                assert(rest[uris.index_of(uri) - 1] == uri);
            }
            if rest.contains(uri) {
                assert(uris[rest.index_of(uri) + 1] == uri);
            }
        }
    }
}

/// The kinds of symbols have the protocol's numbers on the wire, and an indexed kind is
/// reported as the protocol's nearest: a type as a class, a trait as an interface, a macro as
/// a method, and what is local as a variable.
pub proof fn law_symbol_kinds(kind: SymKind)
    ensures
        symbol_code(reported_kind(kind)) == (if kind is Package {
            4int
        } else if kind is Class || kind is Type {
            5
        } else if kind is Method || kind is Macro {
            6
        } else if kind is Field {
            8
        } else if kind is Constructor {
            9
        } else if kind is Trait || kind is Interface {
            11
        } else if kind is Object || kind is PackageObject {
            19
        } else if kind is UnknownKind {
            21
        } else if kind is TypeParameter {
            26
        } else {
            13
        }),
        forall|a: SymbolKind, b: SymbolKind| #[trigger]
            symbol_code(a) == #[trigger] symbol_code(b) ==> a == b,
{
}

/// A rename that fails names the least URI of the plan that stands for no file: it is one of the
/// plan's, and every URI before it stands for one.
pub proof fn law_least_is_named<F: Fn(&str) -> Option<String>>(
    to_file_uri: F,
    plan: Seq<(String, Vec<TextEditSpan>)>,
    uri: Seq<char>,
)
    requires
        least_unresolved(to_file_uri, plan, uri),
    ensures
        exists|i: int| 0 <= i < plan.len() && (#[trigger] plan[i]).0@ == uri,
        exists|key: &str, answer: Option<String>| #[trigger]
            to_file_uri.ensures((key,), answer) && key@ == uri && answer is None,
        forall|i: int|
            0 <= i < plan.len() && order::before((#[trigger] plan[i]).0@, uri) ==> exists|
                key: &str,
                answer: Option<String>,
            | #[trigger]
                to_file_uri.ensures((key,), answer) && key@ == plan[i].0@ && answer is Some,
{
    let uris = plan_uris(plan);
    let k = choose|k: int| 0 <= k < uris.len() && uris[k] == uri;
    assert(plan[k].0@ == uris[k]);
    assert forall|i: int| 0 <= i < plan.len() && order::before(
        (#[trigger] plan[i]).0@,
        uri,
    ) implies exists|key: &str, answer: Option<String>| #[trigger]
        to_file_uri.ensures((key,), answer) && key@ == plan[i].0@ && answer is Some by {
        assert(uris[i] == plan[i].0@);
        assert(resolves_some(to_file_uri, uris[i]));
    }
}

} // verus!
