//! The values that the presentation compiler takes and answers.

use vstd::prelude::*;

use crate::text;

verus! {

/// A zero-based position in UTF-16 code units.
#[derive(Clone, Copy, Debug, PartialEq, Eq, Structural)]
pub struct Pos {
    pub line: u32,
    pub character: u32,
}

/// A range of positions, end exclusive.
#[derive(Clone, Copy, Debug, PartialEq, Eq, Structural)]
pub struct Rng {
    pub start_line: u32,
    pub start_character: u32,
    pub end_line: u32,
    pub end_character: u32,
}

/// A diagnostic of the presentation compiler.
#[derive(Debug, PartialEq, Eq)]
pub struct PcDiagnostic {
    pub range: Rng,
    pub severity: i32,
    pub code: String,
    pub message: String,
}

/// The text that replaces a range.
#[derive(Debug, PartialEq, Eq)]
pub struct TextEdit {
    pub range: Rng,
    pub new_text: String,
}

/// A text in a markup language.
#[derive(Debug, PartialEq, Eq)]
pub struct MarkupContent {
    pub kind: String,
    pub value: String,
}

/// A documentation.
#[derive(Debug, PartialEq, Eq)]
pub enum Documentation {
    Plain(String),
    Markup(MarkupContent),
}

/// What stands behind the label of a completion item.
#[derive(Debug, PartialEq, Eq)]
pub struct LabelDetails {
    pub detail: Option<String>,
    pub description: Option<String>,
}

/// An edit with a range to insert at and a range to replace.
#[derive(Debug, PartialEq, Eq)]
pub struct InsertReplaceEdit {
    pub new_text: String,
    pub insert: Rng,
    pub replace: Rng,
}

/// The edit of a completion item.
#[derive(Debug, PartialEq, Eq)]
pub enum CompletionEdit {
    Plain(TextEdit),
    InsertReplace(InsertReplaceEdit),
}

/// A command. Its arguments are JSON.
#[derive(Debug, PartialEq, Eq)]
pub struct Command {
    pub title: String,
    pub tooltip: Option<String>,
    pub command: String,
    pub arguments: Option<Vec<u8>>,
}

/// A completion item. Its data is JSON.
#[derive(Debug, PartialEq, Eq)]
pub struct CompletionItem {
    pub label: String,
    pub label_details: Option<LabelDetails>,
    pub kind: Option<i32>,
    pub tags: Option<Vec<i32>>,
    pub detail: Option<String>,
    pub documentation: Option<Documentation>,
    pub deprecated: Option<bool>,
    pub preselect: Option<bool>,
    pub sort_text: Option<String>,
    pub filter_text: Option<String>,
    pub insert_text: Option<String>,
    pub insert_text_format: Option<i32>,
    pub insert_text_mode: Option<i32>,
    pub text_edit: Option<CompletionEdit>,
    pub text_edit_text: Option<String>,
    pub additional_text_edits: Option<Vec<TextEdit>>,
    pub commit_characters: Option<Vec<String>>,
    pub command: Option<Command>,
    pub data: Option<Vec<u8>>,
}

/// The range that a completion replaces by default.
#[derive(Clone, Copy, Debug, PartialEq, Eq, Structural)]
pub enum EditRange {
    Range(Rng),
    InsertReplace { insert: Rng, replace: Rng },
}

/// What the items of a list have in common.
#[derive(Debug, PartialEq, Eq)]
pub struct CompletionItemDefaults {
    pub commit_characters: Option<Vec<String>>,
    pub edit_range: Option<EditRange>,
    pub insert_text_format: Option<i32>,
    pub insert_text_mode: Option<i32>,
    pub data: Option<Vec<u8>>,
}

/// How the defaults of a list and the fields of an item combine.
#[derive(Clone, Copy, Debug, PartialEq, Eq, Structural)]
pub struct CompletionApplyKind {
    pub commit_characters: Option<i32>,
    pub data: Option<i32>,
}

/// A list of completions.
#[derive(Debug, PartialEq, Eq)]
pub struct CompletionList {
    pub is_incomplete: bool,
    pub item_defaults: Option<CompletionItemDefaults>,
    pub apply_kind: Option<CompletionApplyKind>,
    pub items: Vec<CompletionItem>,
}

/// One part of a hover.
#[derive(Debug, PartialEq, Eq)]
pub enum MarkedStringItem {
    Plain(String),
    Marked { language: String, value: String },
}

/// The contents of a hover.
#[derive(Debug, PartialEq, Eq)]
pub enum HoverContents {
    Markup(MarkupContent),
    Marked(Vec<MarkedStringItem>),
}

/// A hover.
#[derive(Debug, PartialEq, Eq)]
pub struct Hover {
    pub contents: HoverContents,
    pub range: Option<Rng>,
}

/// A hover, unless there is nothing at the point.
#[derive(Debug, PartialEq, Eq)]
pub struct HoverResult(pub Option<Hover>);

/// The label of a parameter: its text, or its place in the signature.
#[derive(Debug, PartialEq, Eq)]
pub enum ParameterLabel {
    Str(String),
    Offsets { start: u32, end: u32 },
}

/// A parameter of a signature.
#[derive(Debug, PartialEq, Eq)]
pub struct ParameterInfo {
    pub label: ParameterLabel,
    pub documentation: Option<Documentation>,
}

/// A signature.
#[derive(Debug, PartialEq, Eq)]
pub struct SignatureInfo {
    pub label: String,
    pub documentation: Option<Documentation>,
    pub parameters: Option<Vec<ParameterInfo>>,
    pub active_parameter: Option<i32>,
}

/// The signatures at a point.
#[derive(Debug, PartialEq, Eq)]
pub struct SignatureHelp {
    pub signatures: Vec<SignatureInfo>,
    pub active_signature: Option<i32>,
    pub active_parameter: Option<i32>,
}

/// A part of the label of an inlay hint.
#[derive(Debug, PartialEq, Eq)]
pub struct InlayLabelPart {
    pub text: String,
    pub location: Option<(String, Rng)>,
    pub tooltip: Option<String>,
}

/// An inlay hint. Its data is JSON.
#[derive(Debug, PartialEq, Eq)]
pub struct InlayHint {
    pub position: Pos,
    pub label_parts: Vec<InlayLabelPart>,
    pub kind: i32,
    pub padding_left: bool,
    pub padding_right: bool,
    pub text_edits: Option<Vec<TextEdit>>,
    pub data: Option<Vec<u8>>,
}

/// A folding range.
#[derive(Clone, Copy, Debug, PartialEq, Eq, Structural)]
pub struct FoldingRange {
    pub range: Rng,
    pub kind: i32,
}

/// A build target as the presentation compiler registers it.
#[derive(Debug, PartialEq, Eq)]
pub struct TargetConfig {
    pub bsp_id: String,
    pub scala_version: String,
    pub classpath: Vec<String>,
    pub scalac_options: Vec<String>,
    pub source_dirs: Vec<String>,
}

/// The model of a target.
pub struct TargetConfigV {
    pub bsp_id: Seq<char>,
    pub scala_version: Seq<char>,
    pub classpath: Seq<Seq<char>>,
    pub scalac_options: Seq<Seq<char>>,
    pub source_dirs: Seq<Seq<char>>,
}

impl View for TargetConfig {
    type V = TargetConfigV;

    open spec fn view(&self) -> TargetConfigV {
        TargetConfigV {
            bsp_id: self.bsp_id@,
            scala_version: self.scala_version@,
            classpath: text::texts(self.classpath@),
            scalac_options: text::texts(self.scalac_options@),
            source_dirs: text::texts(self.source_dirs@),
        }
    }
}

impl TargetConfig {
    /// A copy of the target.
    pub fn copy(&self) -> (target: TargetConfig)
        ensures
            target@ == self@,
    {
        TargetConfig {
            bsp_id: self.bsp_id.clone(),
            scala_version: self.scala_version.clone(),
            classpath: text::copy_list(self.classpath.as_slice()),
            scalac_options: text::copy_list(self.scalac_options.as_slice()),
            source_dirs: text::copy_list(self.source_dirs.as_slice()),
        }
    }
}

/// The origin of a definition in the workspace.
pub const ORIGIN_WORKSPACE: u32 = 0;

/// The origin of a synthetic definition.
pub const ORIGIN_SYNTHETIC: u32 = 1;

/// The origin of a definition by a plugin.
pub const ORIGIN_PLUGIN: u32 = 2;

/// A location of a definition.
#[derive(Debug, PartialEq, Eq)]
pub struct Location {
    pub uri: String,
    pub range: Rng,
    pub origin: u32,
}

/// A symbol and its definitions.
#[derive(Debug, PartialEq, Eq)]
pub struct DefinitionResult {
    pub symbol: String,
    pub locations: Vec<Location>,
}

/// The status of a compiler plugin.
#[derive(Debug, PartialEq, Eq)]
pub struct CompilerPlugin {
    pub jars: Vec<String>,
    pub options: Vec<String>,
    pub loaded: bool,
    pub detail: String,
}

/// The status of a service plugin.
#[derive(Debug, PartialEq, Eq)]
pub struct ServicePlugin {
    pub id: String,
    pub source: String,
    pub enabled: bool,
    pub self_test_ok: bool,
    pub self_test_detail: String,
}

/// A plugin that is disabled, and why.
#[derive(Debug, PartialEq, Eq)]
pub struct DisabledPlugin {
    pub id: String,
    pub reason: String,
}

/// The status of all plugins.
#[derive(Debug, PartialEq, Eq)]
pub struct PluginStatus {
    pub compiler_plugins: Vec<CompilerPlugin>,
    pub service_plugins: Vec<ServicePlugin>,
    pub disabled: Vec<DisabledPlugin>,
}

/// A method that a search found.
#[derive(Debug, PartialEq, Eq)]
pub struct MethodHit {
    pub uri: String,
    pub symbol: String,
    pub kind: i32,
    pub range: Rng,
}

/// A token of a text: its offsets, its type and its modifiers.
#[derive(Clone, Copy, Debug, PartialEq, Eq, Structural)]
pub struct SemanticNode {
    pub start: u32,
    pub end: u32,
    pub token_type: i32,
    pub token_modifier: i32,
}

/// The edits of a code action, or why it was refused.
#[derive(Debug, PartialEq, Eq)]
pub struct CodeActionResult {
    pub edits: Vec<TextEdit>,
    pub refusal: Option<String>,
}

/// A package that an import would take a name from.
#[derive(Debug, PartialEq, Eq)]
pub struct AutoImport {
    pub package_name: String,
    pub edits: Vec<TextEdit>,
    pub symbol: Option<String>,
}

} // verus!
