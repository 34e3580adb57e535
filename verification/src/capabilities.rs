//! What the server says of itself in the `initialize` result: exactly what it
//! implements. Semantic tokens have no deltas, and neither inlay hints nor code
//! actions are resolved later, so none of these is advertised.

use vstd::prelude::*;
use vstd::string::*;

use crate::json;
use crate::json::Json;
use crate::json::JsonV;
use crate::text;

pub mod commands;
pub mod watch_globs;

verus! {

/// The name of the server.
pub const SERVER_NAME: &'static str = "scala3-bsp-semantic-ls";

/// The version of the server.
pub const SERVER_VERSION: &'static str = "0.1.0";

/// How completion is offered.
#[derive(Debug, PartialEq, Eq)]
pub struct CompletionOptions {
    pub resolve_provider: bool,
    pub trigger_characters: Vec<String>,
}

/// How signature help is offered.
#[derive(Debug, PartialEq, Eq)]
pub struct SignatureHelpOptions {
    pub trigger_characters: Vec<String>,
}

/// How renaming is offered.
#[derive(Debug, PartialEq, Eq)]
pub struct RenameOptions {
    pub prepare_provider: bool,
}

/// Which commands are offered.
#[derive(Debug, PartialEq, Eq)]
pub struct ExecuteCommandOptions {
    pub commands: Vec<String>,
}

/// How inlay hints are offered.
#[derive(Debug, PartialEq, Eq)]
pub struct InlayHintOptions {
    pub resolve_provider: bool,
}

/// How code actions are offered.
#[derive(Debug, PartialEq, Eq)]
pub struct CodeActionOptions {
    pub code_action_kinds: Vec<String>,
    pub resolve_provider: bool,
}

/// The names that the numbers of semantic tokens stand for. The lists are those of
/// the presentation compiler, whose tokens refer to them by index.
#[derive(Debug, PartialEq, Eq)]
pub struct SemanticTokensLegend {
    pub token_types: Vec<String>,
    pub token_modifiers: Vec<String>,
}

impl View for SemanticTokensLegend {
    type V = (Seq<Seq<char>>, Seq<Seq<char>>);

    open spec fn view(&self) -> (Seq<Seq<char>>, Seq<Seq<char>>) {
        (text::texts(self.token_types@), text::texts(self.token_modifiers@))
    }
}

impl SemanticTokensLegend {
    /// A copy of the legend.
    pub fn copy(&self) -> (legend: SemanticTokensLegend)
        ensures
            legend@ == self@,
    {
        SemanticTokensLegend {
            token_types: text::copy_list(self.token_types.as_slice()),
            token_modifiers: text::copy_list(self.token_modifiers.as_slice()),
        }
    }
}

/// How semantic tokens are offered.
#[derive(Debug, PartialEq, Eq)]
pub struct SemanticTokensOptions {
    pub legend: SemanticTokensLegend,
    pub range: bool,
    pub full: bool,
}

/// What the server offers.
#[derive(Debug, PartialEq, Eq)]
pub struct ServerCapabilities {
    /// 2 for incremental changes.
    pub text_document_sync: u32,
    pub position_encoding: String,
    pub completion_provider: CompletionOptions,
    pub hover_provider: bool,
    pub signature_help_provider: SignatureHelpOptions,
    pub definition_provider: bool,
    pub type_definition_provider: bool,
    pub references_provider: bool,
    pub rename_provider: RenameOptions,
    pub document_highlight_provider: bool,
    pub workspace_symbol_provider: bool,
    pub document_symbol_provider: bool,
    pub implementation_provider: bool,
    pub inlay_hint_provider: InlayHintOptions,
    pub code_action_provider: CodeActionOptions,
    pub selection_range_provider: bool,
    pub folding_range_provider: bool,
    pub semantic_tokens_provider: SemanticTokensOptions,
    pub execute_command_provider: ExecuteCommandOptions,
}

/// The name and version of the server.
#[derive(Debug, PartialEq, Eq)]
pub struct ServerInfo {
    pub name: String,
    pub version: String,
}

/// The result of `initialize`.
#[derive(Debug, PartialEq, Eq)]
pub struct InitializeResult {
    pub capabilities: ServerCapabilities,
    pub server_info: ServerInfo,
}

/// The kinds of code actions that are offered, in order.
pub open spec fn action_kinds() -> Seq<Seq<char>> {
    seq!["quickfix"@, "refactor.rewrite"@, "refactor.extract"@, "refactor.inline"@]
}

/// How code actions are offered: each comes with its edit.
pub fn code_action_options() -> (options: CodeActionOptions)
    ensures
        text::texts(options.code_action_kinds@) == action_kinds(),
        !options.resolve_provider,
{
    let kinds = vec![
        "quickfix".to_owned(),
        "refactor.rewrite".to_owned(),
        "refactor.extract".to_owned(),
        "refactor.inline".to_owned(),
    ];
    assert(text::texts(kinds@) =~= action_kinds());
    CodeActionOptions { code_action_kinds: kinds, resolve_provider: false }
}

/// How semantic tokens are offered: for a whole document and for a range.
pub fn semantic_tokens_options(legend: SemanticTokensLegend) -> (options: SemanticTokensOptions)
    ensures
        options == (SemanticTokensOptions { legend, range: true, full: true }),
{
    SemanticTokensOptions { legend, range: true, full: true }
}

/// `offered` is exactly what the server implements, with the given legend.
pub open spec fn is_implemented(
    offered: ServerCapabilities,
    legend: SemanticTokensLegend,
) -> bool {
    &&& offered.text_document_sync == 2
    &&& offered.position_encoding@ == "utf-16"@
    &&& offered.completion_provider.resolve_provider
    &&& text::texts(offered.completion_provider.trigger_characters@) == seq!["."@]
    &&& offered.hover_provider
    &&& text::texts(offered.signature_help_provider.trigger_characters@) == seq!["("@, ","@]
    &&& offered.definition_provider
    &&& offered.type_definition_provider
    &&& offered.references_provider
    &&& offered.rename_provider.prepare_provider
    &&& offered.document_highlight_provider
    &&& offered.workspace_symbol_provider
    &&& offered.document_symbol_provider
    &&& offered.implementation_provider
    &&& !offered.inlay_hint_provider.resolve_provider
    &&& text::texts(offered.code_action_provider.code_action_kinds@) == action_kinds()
    &&& !offered.code_action_provider.resolve_provider
    &&& offered.selection_range_provider
    &&& offered.folding_range_provider
    &&& offered.semantic_tokens_provider.legend@ == legend@
    &&& offered.semantic_tokens_provider.range
    &&& offered.semantic_tokens_provider.full
    &&& text::texts(offered.execute_command_provider.commands@) == commands::names()
}

/// What the server implements.
pub fn server_capabilities(legend: SemanticTokensLegend) -> (offered: ServerCapabilities)
    ensures
        is_implemented(offered, legend),
{
    let completion = vec![".".to_owned()];
    assert(text::texts(completion@) =~= seq!["."@]);
    let signature = vec!["(".to_owned(), ",".to_owned()];
    assert(text::texts(signature@) =~= seq!["("@, ","@]);
    ServerCapabilities {
        text_document_sync: 2,
        position_encoding: "utf-16".to_owned(),
        completion_provider: CompletionOptions {
            resolve_provider: true,
            trigger_characters: completion,
        },
        hover_provider: true,
        signature_help_provider: SignatureHelpOptions { trigger_characters: signature },
        definition_provider: true,
        type_definition_provider: true,
        references_provider: true,
        rename_provider: RenameOptions { prepare_provider: true },
        document_highlight_provider: true,
        workspace_symbol_provider: true,
        document_symbol_provider: true,
        implementation_provider: true,
        inlay_hint_provider: InlayHintOptions { resolve_provider: false },
        code_action_provider: code_action_options(),
        selection_range_provider: true,
        folding_range_provider: true,
        semantic_tokens_provider: semantic_tokens_options(legend),
        execute_command_provider: ExecuteCommandOptions { commands: commands::all() },
    }
}

/// `result` is the result of `initialize`, with the given legend.
pub open spec fn is_initialize_result(
    result: InitializeResult,
    legend: SemanticTokensLegend,
) -> bool {
    &&& is_implemented(result.capabilities, legend)
    &&& result.server_info.name@ == SERVER_NAME@
    &&& result.server_info.version@ == SERVER_VERSION@
}

/// The result of `initialize`.
pub fn initialize_result(legend: SemanticTokensLegend) -> (result: InitializeResult)
    ensures
        is_initialize_result(result, legend),
{
    InitializeResult {
        capabilities: server_capabilities(legend),
        server_info: ServerInfo {
            name: SERVER_NAME.to_owned(),
            version: SERVER_VERSION.to_owned(),
        },
    }
}

/// The members of the offer: synchronisation, completion, hover and signature help.
pub open spec fn editing_members(offered: ServerCapabilities) -> Seq<(Seq<char>, JsonV)> {
    seq![
        ("textDocumentSync"@, json::int_view(offered.text_document_sync as int)),
        ("positionEncoding"@, JsonV::Str(offered.position_encoding@)),
        ("completionProvider"@, completion_json(offered.completion_provider)),
        ("hoverProvider"@, JsonV::Bool(offered.hover_provider)),
        ("signatureHelpProvider"@, signature_json(offered.signature_help_provider)),
    ]
}

/// The members of the offer: navigation and renaming.
pub open spec fn navigation_members(offered: ServerCapabilities) -> Seq<(Seq<char>, JsonV)> {
    seq![
        ("definitionProvider"@, JsonV::Bool(offered.definition_provider)),
        ("typeDefinitionProvider"@, JsonV::Bool(offered.type_definition_provider)),
        ("referencesProvider"@, JsonV::Bool(offered.references_provider)),
        (
            "renameProvider"@,
            JsonV::Object(
                seq![
                    (
                        "prepareProvider"@,
                        JsonV::Bool(offered.rename_provider.prepare_provider),
                    ),
                ],
            ),
        ),
        ("documentHighlightProvider"@, JsonV::Bool(offered.document_highlight_provider)),
        ("workspaceSymbolProvider"@, JsonV::Bool(offered.workspace_symbol_provider)),
        ("documentSymbolProvider"@, JsonV::Bool(offered.document_symbol_provider)),
        ("implementationProvider"@, JsonV::Bool(offered.implementation_provider)),
    ]
}

/// The members of the offer: hints, actions, ranges, tokens and commands.
pub open spec fn extended_members(offered: ServerCapabilities) -> Seq<(Seq<char>, JsonV)> {
    seq![
        (
            "inlayHintProvider"@,
            JsonV::Object(
                seq![
                    (
                        "resolveProvider"@,
                        JsonV::Bool(offered.inlay_hint_provider.resolve_provider),
                    ),
                ],
            ),
        ),
        ("codeActionProvider"@, code_action_json(offered.code_action_provider)),
        ("selectionRangeProvider"@, JsonV::Bool(offered.selection_range_provider)),
        ("foldingRangeProvider"@, JsonV::Bool(offered.folding_range_provider)),
        ("semanticTokensProvider"@, semantic_tokens_json(offered.semantic_tokens_provider)),
        (
            "executeCommandProvider"@,
            JsonV::Object(
                seq![
                    (
                        "commands"@,
                        json::strings_view(
                            text::texts(offered.execute_command_provider.commands@),
                        ),
                    ),
                ],
            ),
        ),
    ]
}

/// The JSON of the offer.
pub open spec fn capabilities_json(offered: ServerCapabilities) -> JsonV {
    JsonV::Object(
        editing_members(offered) + navigation_members(offered) + extended_members(offered),
    )
}

/// The JSON of how completion is offered.
pub open spec fn completion_json(options: CompletionOptions) -> JsonV {
    JsonV::Object(
        seq![
            ("resolveProvider"@, JsonV::Bool(options.resolve_provider)),
            (
                "triggerCharacters"@,
                json::strings_view(text::texts(options.trigger_characters@)),
            ),
        ],
    )
}

/// The JSON of how signature help is offered.
pub open spec fn signature_json(options: SignatureHelpOptions) -> JsonV {
    JsonV::Object(
        seq![
            (
                "triggerCharacters"@,
                json::strings_view(text::texts(options.trigger_characters@)),
            ),
        ],
    )
}

/// The JSON of how code actions are offered.
pub open spec fn code_action_json(options: CodeActionOptions) -> JsonV {
    JsonV::Object(
        seq![
            ("codeActionKinds"@, json::strings_view(text::texts(options.code_action_kinds@))),
            ("resolveProvider"@, JsonV::Bool(options.resolve_provider)),
        ],
    )
}

/// The JSON of how semantic tokens are offered.
pub open spec fn semantic_tokens_json(options: SemanticTokensOptions) -> JsonV {
    JsonV::Object(
        seq![
            (
                "legend"@,
                JsonV::Object(
                    seq![
                        (
                            "tokenTypes"@,
                            json::strings_view(text::texts(options.legend.token_types@)),
                        ),
                        (
                            "tokenModifiers"@,
                            json::strings_view(text::texts(options.legend.token_modifiers@)),
                        ),
                    ],
                ),
            ),
            ("range"@, JsonV::Bool(options.range)),
            ("full"@, JsonV::Bool(options.full)),
        ],
    )
}

/// The JSON of the result of `initialize`.
pub open spec fn initialize_json(result: InitializeResult) -> JsonV {
    JsonV::Object(
        seq![
            ("capabilities"@, capabilities_json(result.capabilities)),
            (
                "serverInfo"@,
                JsonV::Object(
                    seq![
                        ("name"@, JsonV::Str(result.server_info.name@)),
                        ("version"@, JsonV::Str(result.server_info.version@)),
                    ],
                ),
            ),
        ],
    )
}

impl SemanticTokensOptions {
    /// The JSON of the options.
    pub fn to_json(&self) -> (value: Json)
        ensures
            value@ == semantic_tokens_json(*self),
    {
        let legend = json::pair(
            "tokenTypes",
            json::strings(self.legend.token_types.as_slice()),
            "tokenModifiers",
            json::strings(self.legend.token_modifiers.as_slice()),
        );
        let mut members: Vec<(String, Json)> = Vec::new();
        assert(json::member_views(members@) =~= seq![]);
        json::put(&mut members, "legend", legend);
        json::put(&mut members, "range", Json::Bool(self.range));
        json::put(&mut members, "full", Json::Bool(self.full));
        let value = json::object(members);
        assert(value@->Object_0 =~= semantic_tokens_json(*self)->Object_0);
        value
    }
}

impl CodeActionOptions {
    /// The JSON of the options.
    pub fn to_json(&self) -> (value: Json)
        ensures
            value@ == code_action_json(*self),
    {
        json::pair(
            "codeActionKinds",
            json::strings(self.code_action_kinds.as_slice()),
            "resolveProvider",
            Json::Bool(self.resolve_provider),
        )
    }
}

impl ServerCapabilities {
    fn editing(&self) -> (members: Vec<(String, Json)>)
        ensures
            json::member_views(members@) == editing_members(*self),
    {
        let mut m: Vec<(String, Json)> = Vec::new();
        assert(json::member_views(m@) =~= seq![]);
        json::put(&mut m, "textDocumentSync", json::natural(self.text_document_sync as u64));
        json::put(&mut m, "positionEncoding", json::string(self.position_encoding.as_str()));
        json::put(
            &mut m,
            "completionProvider",
            json::pair(
                "resolveProvider",
                Json::Bool(self.completion_provider.resolve_provider),
                "triggerCharacters",
                json::strings(self.completion_provider.trigger_characters.as_slice()),
            ),
        );
        json::put(&mut m, "hoverProvider", Json::Bool(self.hover_provider));
        json::put(
            &mut m,
            "signatureHelpProvider",
            json::single(
                "triggerCharacters",
                json::strings(self.signature_help_provider.trigger_characters.as_slice()),
            ),
        );
        assert(json::member_views(m@) =~= editing_members(*self));
        m
    }

    fn navigation(&self) -> (members: Vec<(String, Json)>)
        ensures
            json::member_views(members@) == navigation_members(*self),
    {
        let mut m: Vec<(String, Json)> = Vec::new();
        assert(json::member_views(m@) =~= seq![]);
        json::put(&mut m, "definitionProvider", Json::Bool(self.definition_provider));
        json::put(&mut m, "typeDefinitionProvider", Json::Bool(self.type_definition_provider));
        json::put(&mut m, "referencesProvider", Json::Bool(self.references_provider));
        json::put(
            &mut m,
            "renameProvider",
            json::single("prepareProvider", Json::Bool(self.rename_provider.prepare_provider)),
        );
        json::put(
            &mut m,
            "documentHighlightProvider",
            Json::Bool(self.document_highlight_provider),
        );
        json::put(&mut m, "workspaceSymbolProvider", Json::Bool(self.workspace_symbol_provider));
        json::put(&mut m, "documentSymbolProvider", Json::Bool(self.document_symbol_provider));
        json::put(&mut m, "implementationProvider", Json::Bool(self.implementation_provider));
        assert(json::member_views(m@) =~= navigation_members(*self));
        m
    }

    fn extended(&self) -> (members: Vec<(String, Json)>)
        ensures
            json::member_views(members@) == extended_members(*self),
    {
        let mut m: Vec<(String, Json)> = Vec::new();
        assert(json::member_views(m@) =~= seq![]);
        json::put(
            &mut m,
            "inlayHintProvider",
            json::single("resolveProvider", Json::Bool(self.inlay_hint_provider.resolve_provider)),
        );
        json::put(&mut m, "codeActionProvider", self.code_action_provider.to_json());
        json::put(&mut m, "selectionRangeProvider", Json::Bool(self.selection_range_provider));
        json::put(&mut m, "foldingRangeProvider", Json::Bool(self.folding_range_provider));
        json::put(&mut m, "semanticTokensProvider", self.semantic_tokens_provider.to_json());
        json::put(
            &mut m,
            "executeCommandProvider",
            json::single("commands", json::strings(self.execute_command_provider.commands.as_slice())),
        );
        assert(json::member_views(m@) =~= extended_members(*self));
        m
    }

    /// The JSON of the offer.
    pub fn to_json(&self) -> (value: Json)
        ensures
            value@ == capabilities_json(*self),
    {
        let mut members = self.editing();
        let mut navigation = self.navigation();
        let mut extended = self.extended();
        let ghost parts = (members@, navigation@, extended@);
        members.append(&mut navigation);
        members.append(&mut extended);
        assert(json::member_views(members@) =~= json::member_views(parts.0) + json::member_views(
            parts.1,
        ) + json::member_views(parts.2));
        json::object(members)
    }
}

impl InitializeResult {
    /// The JSON of the result.
    pub fn to_json(&self) -> (value: Json)
        ensures
            value@ == initialize_json(*self),
    {
        json::pair(
            "capabilities",
            self.capabilities.to_json(),
            "serverInfo",
            json::pair(
                "name",
                json::string(self.server_info.name.as_str()),
                "version",
                json::string(self.server_info.version.as_str()),
            ),
        )
    }
}

proof fn lemma_capability_at(offered: ServerCapabilities, name: Seq<char>)
    ensures
        capabilities_json(offered).get(name) == (if json::member(editing_members(offered), name)
            is Some {
            json::member(editing_members(offered), name)
        } else if json::member(navigation_members(offered), name) is Some {
            json::member(navigation_members(offered), name)
        } else {
            json::member(extended_members(offered), name)
        }),
{
    let front = editing_members(offered) + navigation_members(offered);
    json::lemma_member_add(editing_members(offered), navigation_members(offered), name);
    json::lemma_member_add(front, extended_members(offered), name);
}

#[verifier::rlimit(60)]
proof fn lemma_capability_members(offered: ServerCapabilities)
    ensures
        capabilities_json(offered).get("textDocumentSync"@) == Some(json::int_view(offered.text_document_sync as int)),
        capabilities_json(offered).get("positionEncoding"@) == Some(JsonV::Str(offered.position_encoding@)),
        capabilities_json(offered).get("completionProvider"@) == Some(completion_json(offered.completion_provider)),
        capabilities_json(offered).get("hoverProvider"@) == Some(JsonV::Bool(offered.hover_provider)),
        capabilities_json(offered).get("signatureHelpProvider"@) == Some(signature_json(offered.signature_help_provider)),
        capabilities_json(offered).get("definitionProvider"@) == Some(JsonV::Bool(offered.definition_provider)),
        capabilities_json(offered).get("typeDefinitionProvider"@) == Some(JsonV::Bool(offered.type_definition_provider)),
        capabilities_json(offered).get("referencesProvider"@) == Some(JsonV::Bool(offered.references_provider)),
        capabilities_json(offered).get("renameProvider"@) == Some(
            JsonV::Object(
                seq![
                    (
                        "prepareProvider"@,
                        JsonV::Bool(offered.rename_provider.prepare_provider),
                    ),
                ],
            ),
        ),
        capabilities_json(offered).get("documentHighlightProvider"@) == Some(JsonV::Bool(offered.document_highlight_provider)),
        capabilities_json(offered).get("workspaceSymbolProvider"@) == Some(JsonV::Bool(offered.workspace_symbol_provider)),
        capabilities_json(offered).get("documentSymbolProvider"@) == Some(JsonV::Bool(offered.document_symbol_provider)),
        capabilities_json(offered).get("implementationProvider"@) == Some(JsonV::Bool(offered.implementation_provider)),
        capabilities_json(offered).get("inlayHintProvider"@) == Some(
            JsonV::Object(
                seq![
                    (
                        "resolveProvider"@,
                        JsonV::Bool(offered.inlay_hint_provider.resolve_provider),
                    ),
                ],
            ),
        ),
        capabilities_json(offered).get("codeActionProvider"@) == Some(code_action_json(offered.code_action_provider)),
        capabilities_json(offered).get("selectionRangeProvider"@) == Some(JsonV::Bool(offered.selection_range_provider)),
        capabilities_json(offered).get("foldingRangeProvider"@) == Some(JsonV::Bool(offered.folding_range_provider)),
        capabilities_json(offered).get("semanticTokensProvider"@) == Some(semantic_tokens_json(offered.semantic_tokens_provider)),
        capabilities_json(offered).get("executeCommandProvider"@) == Some(
            JsonV::Object(
                seq![
                    (
                        "commands"@,
                        json::strings_view(
                            text::texts(offered.execute_command_provider.commands@),
                        ),
                    ),
                ],
            ),
        ),
{
    broadcast use json::lemma_member_short;

    reveal_strlit("textDocumentSync");
    reveal_strlit("positionEncoding");
    reveal_strlit("completionProvider");
    reveal_strlit("hoverProvider");
    reveal_strlit("signatureHelpProvider");
    reveal_strlit("definitionProvider");
    reveal_strlit("typeDefinitionProvider");
    reveal_strlit("referencesProvider");
    reveal_strlit("renameProvider");
    reveal_strlit("documentHighlightProvider");
    reveal_strlit("workspaceSymbolProvider");
    reveal_strlit("documentSymbolProvider");
    reveal_strlit("implementationProvider");
    reveal_strlit("inlayHintProvider");
    reveal_strlit("codeActionProvider");
    reveal_strlit("selectionRangeProvider");
    reveal_strlit("foldingRangeProvider");
    reveal_strlit("semanticTokensProvider");
    reveal_strlit("executeCommandProvider");
    assert("textDocumentSync"@.len() == 16 && "textDocumentSync"@[0] == 't' && "textDocumentSync"@[2] == 'x');
    assert("positionEncoding"@.len() == 16 && "positionEncoding"@[0] == 'p' && "positionEncoding"@[2] == 's');
    assert("completionProvider"@.len() == 18 && "completionProvider"@[0] == 'c' && "completionProvider"@[2] == 'm');
    assert("hoverProvider"@.len() == 13 && "hoverProvider"@[0] == 'h' && "hoverProvider"@[2] == 'v');
    assert("signatureHelpProvider"@.len() == 21 && "signatureHelpProvider"@[0] == 's' && "signatureHelpProvider"@[2] == 'g');
    assert("definitionProvider"@.len() == 18 && "definitionProvider"@[0] == 'd' && "definitionProvider"@[2] == 'f');
    assert("typeDefinitionProvider"@.len() == 22 && "typeDefinitionProvider"@[0] == 't' && "typeDefinitionProvider"@[2] == 'p');
    assert("referencesProvider"@.len() == 18 && "referencesProvider"@[0] == 'r' && "referencesProvider"@[2] == 'f');
    assert("renameProvider"@.len() == 14 && "renameProvider"@[0] == 'r' && "renameProvider"@[2] == 'n');
    assert("documentHighlightProvider"@.len() == 25 && "documentHighlightProvider"@[0] == 'd' && "documentHighlightProvider"@[2] == 'c');
    assert("workspaceSymbolProvider"@.len() == 23 && "workspaceSymbolProvider"@[0] == 'w' && "workspaceSymbolProvider"@[2] == 'r');
    assert("documentSymbolProvider"@.len() == 22 && "documentSymbolProvider"@[0] == 'd' && "documentSymbolProvider"@[2] == 'c');
    assert("implementationProvider"@.len() == 22 && "implementationProvider"@[0] == 'i' && "implementationProvider"@[2] == 'p');
    assert("inlayHintProvider"@.len() == 17 && "inlayHintProvider"@[0] == 'i' && "inlayHintProvider"@[2] == 'l');
    assert("codeActionProvider"@.len() == 18 && "codeActionProvider"@[0] == 'c' && "codeActionProvider"@[2] == 'd');
    assert("selectionRangeProvider"@.len() == 22 && "selectionRangeProvider"@[0] == 's' && "selectionRangeProvider"@[2] == 'l');
    assert("foldingRangeProvider"@.len() == 20 && "foldingRangeProvider"@[0] == 'f' && "foldingRangeProvider"@[2] == 'l');
    assert("semanticTokensProvider"@.len() == 22 && "semanticTokensProvider"@[0] == 's' && "semanticTokensProvider"@[2] == 'm');
    assert("executeCommandProvider"@.len() == 22 && "executeCommandProvider"@[0] == 'e' && "executeCommandProvider"@[2] == 'e');
    lemma_capability_at(offered, "textDocumentSync"@);
    lemma_capability_at(offered, "positionEncoding"@);
    lemma_capability_at(offered, "completionProvider"@);
    lemma_capability_at(offered, "hoverProvider"@);
    lemma_capability_at(offered, "signatureHelpProvider"@);
    lemma_capability_at(offered, "definitionProvider"@);
    lemma_capability_at(offered, "typeDefinitionProvider"@);
    lemma_capability_at(offered, "referencesProvider"@);
    lemma_capability_at(offered, "renameProvider"@);
    lemma_capability_at(offered, "documentHighlightProvider"@);
    lemma_capability_at(offered, "workspaceSymbolProvider"@);
    lemma_capability_at(offered, "documentSymbolProvider"@);
    lemma_capability_at(offered, "implementationProvider"@);
    lemma_capability_at(offered, "inlayHintProvider"@);
    lemma_capability_at(offered, "codeActionProvider"@);
    lemma_capability_at(offered, "selectionRangeProvider"@);
    lemma_capability_at(offered, "foldingRangeProvider"@);
    lemma_capability_at(offered, "semanticTokensProvider"@);
    lemma_capability_at(offered, "executeCommandProvider"@);
}

/// What is found is a list of texts, each of them in order.
pub open spec fn shows_list(found: Option<JsonV>, list: Seq<String>) -> bool {
    match found {
        Some(JsonV::Array(items)) => items.len() == list.len() && forall|k: int|
            0 <= k < items.len() ==> #[trigger] items[k] == JsonV::Str(list[k]@),
        _ => false,
    }
}

/// The JSON of the offer shows each capability under the protocol's name for it.
pub proof fn law_offer_shown(offered: ServerCapabilities)
    ensures
        capabilities_json(offered).get("textDocumentSync"@) == Some(json::int_view(offered.text_document_sync as int)),
        capabilities_json(offered).get("positionEncoding"@) == Some(JsonV::Str(offered.position_encoding@)),
        capabilities_json(offered).get("hoverProvider"@) == Some(JsonV::Bool(offered.hover_provider)),
        capabilities_json(offered).get("definitionProvider"@) == Some(JsonV::Bool(offered.definition_provider)),
        capabilities_json(offered).get("typeDefinitionProvider"@) == Some(JsonV::Bool(offered.type_definition_provider)),
        capabilities_json(offered).get("referencesProvider"@) == Some(JsonV::Bool(offered.references_provider)),
        capabilities_json(offered).get("documentHighlightProvider"@) == Some(JsonV::Bool(offered.document_highlight_provider)),
        capabilities_json(offered).get("workspaceSymbolProvider"@) == Some(JsonV::Bool(offered.workspace_symbol_provider)),
        capabilities_json(offered).get("documentSymbolProvider"@) == Some(JsonV::Bool(offered.document_symbol_provider)),
        capabilities_json(offered).get("implementationProvider"@) == Some(JsonV::Bool(offered.implementation_provider)),
        capabilities_json(offered).get("selectionRangeProvider"@) == Some(JsonV::Bool(offered.selection_range_provider)),
        capabilities_json(offered).get("foldingRangeProvider"@) == Some(JsonV::Bool(offered.folding_range_provider)),
        capabilities_json(offered).get("completionProvider"@) matches Some(value) && value.get(
            "resolveProvider"@,
        ) == Some(JsonV::Bool(offered.completion_provider.resolve_provider)) && shows_list(
            value.get("triggerCharacters"@),
            offered.completion_provider.trigger_characters@,
        ),
        capabilities_json(offered).get("signatureHelpProvider"@) matches Some(value)
            && shows_list(
            value.get("triggerCharacters"@),
            offered.signature_help_provider.trigger_characters@,
        ),
        capabilities_json(offered).get("renameProvider"@) matches Some(value) && value.get(
            "prepareProvider"@,
        ) == Some(JsonV::Bool(offered.rename_provider.prepare_provider)),
        capabilities_json(offered).get("inlayHintProvider"@) matches Some(value) && value.get(
            "resolveProvider"@,
        ) == Some(JsonV::Bool(offered.inlay_hint_provider.resolve_provider)),
        capabilities_json(offered).get("codeActionProvider"@) matches Some(value) && value.get(
            "resolveProvider"@,
        ) == Some(JsonV::Bool(offered.code_action_provider.resolve_provider)) && shows_list(
            value.get("codeActionKinds"@),
            offered.code_action_provider.code_action_kinds@,
        ),
        capabilities_json(offered).get("executeCommandProvider"@) matches Some(value)
            && shows_list(
            value.get("commands"@),
            offered.execute_command_provider.commands@,
        ),
        capabilities_json(offered).get("semanticTokensProvider"@) matches Some(value) && (
        value.get("legend"@) matches Some(legend) && shows_list(
            legend.get("tokenTypes"@),
            offered.semantic_tokens_provider.legend.token_types@,
        ) && shows_list(
            legend.get("tokenModifiers"@),
            offered.semantic_tokens_provider.legend.token_modifiers@,
        )) && value.get("range"@) == Some(JsonV::Bool(offered.semantic_tokens_provider.range))
            && value.get("full"@) == Some(JsonV::Bool(offered.semantic_tokens_provider.full)),
{
    broadcast use json::lemma_member_short;

    lemma_capability_members(offered);
    json::law_strings_shown(offered.completion_provider.trigger_characters@);
    json::law_strings_shown(offered.signature_help_provider.trigger_characters@);
    json::law_strings_shown(offered.code_action_provider.code_action_kinds@);
    json::law_strings_shown(offered.execute_command_provider.commands@);
    json::law_strings_shown(offered.semantic_tokens_provider.legend.token_types@);
    json::law_strings_shown(offered.semantic_tokens_provider.legend.token_modifiers@);
    reveal_strlit("resolveProvider");
    reveal_strlit("triggerCharacters");
    reveal_strlit("codeActionKinds");
    reveal_strlit("legend");
    reveal_strlit("range");
    reveal_strlit("full");
    reveal_strlit("tokenTypes");
    reveal_strlit("tokenModifiers");
    assert("resolveProvider"@.len() == 15 && "triggerCharacters"@.len() == 17);
    assert("codeActionKinds"@.len() == 15);
    assert("resolveProvider"@[0] == 'r' && "codeActionKinds"@[0] == 'c');
    assert("legend"@.len() == 6 && "range"@.len() == 5 && "full"@.len() == 4);
    assert("tokenTypes"@.len() == 10 && "tokenModifiers"@.len() == 14);
}

/// The result of `initialize` shows the offer, and the name and version of the server.
pub proof fn law_initialize_shown(result: InitializeResult)
    ensures
        initialize_json(result).get("capabilities"@) == Some(
            capabilities_json(result.capabilities),
        ),
        initialize_json(result).get("serverInfo"@) matches Some(info) && info.get("name"@) == Some(
            JsonV::Str(result.server_info.name@),
        ) && info.get("version"@) == Some(JsonV::Str(result.server_info.version@)),
{
    broadcast use json::lemma_member_short;

    reveal_strlit("capabilities");
    reveal_strlit("serverInfo");
    reveal_strlit("name");
    reveal_strlit("version");
    assert("capabilities"@.len() == 12 && "serverInfo"@.len() == 10);
    assert("name"@.len() == 4 && "version"@.len() == 7);
}

/// The server offers incremental synchronisation in UTF-16 and every provider that it
/// implements, with the actions and commands of the protocol's names, under the legend of the
/// presentation compiler.
pub proof fn law_offer_complete(offered: ServerCapabilities, legend: SemanticTokensLegend)
    requires
        is_implemented(offered, legend),
    ensures
        offered.text_document_sync == 2,
        offered.position_encoding@ == "utf-16"@,
        offered.hover_provider && offered.definition_provider && offered.type_definition_provider,
        offered.references_provider && offered.document_highlight_provider
            && offered.workspace_symbol_provider,
        offered.document_symbol_provider && offered.implementation_provider
            && offered.selection_range_provider && offered.folding_range_provider,
        offered.completion_provider.resolve_provider && offered.rename_provider.prepare_provider,
        !offered.inlay_hint_provider.resolve_provider
            && !offered.code_action_provider.resolve_provider,
        offered.semantic_tokens_provider.range && offered.semantic_tokens_provider.full,
        text::texts(offered.semantic_tokens_provider.legend.token_types@) == text::texts(
            legend.token_types@,
        ),
        text::texts(offered.semantic_tokens_provider.legend.token_modifiers@) == text::texts(
            legend.token_modifiers@,
        ),
        text::texts(offered.completion_provider.trigger_characters@) =~= seq!["."@],
        text::texts(offered.signature_help_provider.trigger_characters@) =~= seq!["("@, ","@],
        text::texts(offered.code_action_provider.code_action_kinds@) =~= seq![
            "quickfix"@,
            "refactor.rewrite"@,
            "refactor.extract"@,
            "refactor.inline"@,
        ],
        text::texts(offered.execute_command_provider.commands@) =~= seq![
            "scala3SemanticLs.doctor"@,
            "scala3SemanticLs.reindex"@,
            "scala3SemanticLs.compile"@,
            "scala3SemanticLs.pcPluginStatus"@,
        ],
{
}

} // verus!
