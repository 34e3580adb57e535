//! The presentation compiler's side of the server. The compiler runs in an embedded
//! JVM, the island, which boots at the first query. Until then, and after it, the
//! service mirrors the open buffers: what the island is told when it boots, and
//! what it has accepted since. This module decides; the application talks to the
//! island and reports the outcomes.

use vstd::prelude::*;
use vstd::string::*;

use crate::config;
use crate::json::Json;
use crate::json::JsonV;
use crate::logging;
use crate::order;
use crate::paths;
use crate::pc_abi;
use crate::pc_abi::{DefinitionResult, Rng, TargetConfig};
use crate::pc_convert;
use crate::strmap::StrMap;
use crate::text;

verus! {

/// A location that the presentation compiler found.
#[derive(Debug, PartialEq, Eq)]
pub struct PcLocation {
    pub uri: String,
    pub start_line: u32,
    pub start_character: u32,
    pub end_line: u32,
    pub end_character: u32,
}

/// A span of the presentation compiler: zero-based lines, UTF-16 characters, end
/// exclusive.
#[derive(Clone, Copy, Debug, PartialEq, Eq, Structural)]
pub struct PcSpan {
    pub start_line: u32,
    pub start_character: u32,
    pub end_line: u32,
    pub end_character: u32,
}

/// Where a definition lies.
#[derive(Clone, Copy, Debug, PartialEq, Eq, Structural)]
pub enum PcDefOrigin {
    Workspace,
    Synthetic,
    Plugin,
}

/// The location of a definition.
#[derive(Debug, PartialEq, Eq)]
pub struct PcDefLocation {
    pub uri: String,
    pub span: PcSpan,
    pub origin: PcDefOrigin,
}

/// A symbol and where it is defined. The symbol is empty where there is none.
#[derive(Debug, Default, PartialEq, Eq)]
pub struct PcDefinition {
    pub symbol: String,
    pub locations: Vec<PcDefLocation>,
}

/// The status of a compiler plugin.
#[derive(Debug, Default, PartialEq, Eq)]
pub struct PcCompilerPluginStatus {
    pub jars: Vec<String>,
    pub options: Vec<String>,
    pub loaded: bool,
    pub detail: String,
}

/// The status of a service plugin.
#[derive(Debug, Default, PartialEq, Eq)]
pub struct PcServicePluginStatus {
    pub id: String,
    pub source: String,
    pub enabled: bool,
    pub self_test_ok: bool,
    pub self_test_detail: String,
}

/// A plugin that is disabled, and why.
#[derive(Debug, Default, PartialEq, Eq)]
pub struct PcDisabledPlugin {
    pub id: String,
    pub reason: String,
}

/// The status of all plugins.
#[derive(Debug, Default, PartialEq, Eq)]
pub struct PcPluginStatusReport {
    pub compiler_plugins: Vec<PcCompilerPluginStatus>,
    pub service_plugins: Vec<PcServicePluginStatus>,
    pub disabled: Vec<PcDisabledPlugin>,
}

/// The presentation compiler of a ready workspace. The document notifications keep its
/// buffers as the client has them; a query is asked of a buffer that it holds. The defaults
/// are those of a server without a compiler.
pub trait PcQueryService {
    /// A document of a target was opened. This never starts the compiler.
    fn did_open(&self, target_id: &str, uri: &str, text: &str);

    /// A document was changed; `text` is all of it. This never starts the compiler.
    fn did_change(&self, uri: &str, text: &str);

    /// A document was closed. This never starts the compiler.
    fn did_close(&self, uri: &str);

    /// Whether the compiler holds a buffer.
    fn is_open(&self, uri: &str) -> bool;

    /// Whether a query would be asked of a compiler that is running already.
    fn booted(&self) -> (running: bool)
        default_ensures
            running,
    {
        true
    }

    /// Where the symbol at a cursor is defined, empty where that is not known.
    fn definition(&self, uri: &str, line: u32, character: u32) -> Vec<PcLocation>;

    /// Where the type of the symbol at a cursor is defined, empty where that is not known.
    fn type_definition(&self, uri: &str, line: u32, character: u32) -> Vec<PcLocation>;

    /// The completions at a cursor.
    fn completion(&self, uri: &str, line: u32, character: u32) -> Json;

    /// What is shown for a cursor, or null.
    fn hover(&self, uri: &str, line: u32, character: u32) -> Json;

    /// The signatures of the call at a cursor, or null.
    fn signature_help(&self, uri: &str, line: u32, character: u32) -> Json;

    /// The span that a rename at a cursor would replace, where the compiler offers one.
    fn prepare_rename(&self, _uri: &str, _line: u32, _character: u32) -> (span: Option<PcSpan>)
        default_ensures
            span is None,
    {
        None
    }

    /// The definition of the symbol at a cursor, empty where there is none.
    fn definition_result(&self, _uri: &str, _line: u32, _character: u32) -> (definition:
        PcDefinition)
        default_ensures
            definition.symbol@.len() == 0,
            definition.locations@.len() == 0,
    {
        PcDefinition { symbol: String::new(), locations: Vec::new() }
    }

    /// Whether a target is registered.
    fn is_registered(&self, target_id: &str) -> bool;

    /// The ids of the registered targets, sorted. This never starts the compiler.
    fn registered_targets(&self) -> (ids: Vec<String>)
        default_ensures
            ids@.len() == 0,
    {
        Vec::new()
    }

    /// The status of the plugins of a compiler that is running.
    fn plugin_status(&self) -> (report: Option<PcPluginStatusReport>)
        default_ensures
            report is None,
    {
        None
    }

    /// A completion item with what the compiler adds to it, or as it was given.
    fn resolve_completion_item(&self, target_id: &str, symbol: &str, item: &Json) -> Json;

    /// Replaces the registered targets.
    fn reconfigure_targets(&self, _targets: Vec<TargetConfig>) {
    }

    /// The configuration file changed.
    fn on_config_changed(&self) {
    }

    /// The inlay hints of a range.
    fn inlay_hints(&self, _uri: &str, _range: Rng, _flags: u32) -> (hints: Vec<pc_abi::InlayHint>)
        default_ensures
            hints@.len() == 0,
    {
        Vec::new()
    }

    /// The semantic tokens of a buffer.
    fn semantic_tokens(&self, _uri: &str) -> (nodes: Vec<pc_abi::SemanticNode>)
        default_ensures
            nodes@.len() == 0,
    {
        Vec::new()
    }

    /// The ranges around each position, innermost first.
    fn selection_range(&self, _uri: &str, _positions: &[pc_abi::Pos]) -> (chains: Vec<Vec<Rng>>)
        default_ensures
            chains@.len() == 0,
    {
        Vec::new()
    }

    /// The edits of a code action at a position, or why there are none.
    fn code_action(
        &self,
        _uri: &str,
        _action: i32,
        _position: pc_abi::Pos,
        _extraction_end: Option<pc_abi::Pos>,
        _arg_indices: Option<Vec<i32>>,
    ) -> (result: pc_abi::CodeActionResult)
        default_ensures
            result.edits@.len() == 0,
            result.refusal is None,
    {
        code_action_reply(None)
    }

    /// The imports that a name at a position may need, best first.
    fn auto_imports(
        &self,
        _uri: &str,
        _position: pc_abi::Pos,
        _name: &str,
        _is_extension: bool,
    ) -> (imports: Vec<pc_abi::AutoImport>)
        default_ensures
            imports@.len() == 0,
    {
        Vec::new()
    }

    /// The diagnostics of a buffer.
    fn pc_diagnostics(&self, _uri: &str) -> (diagnostics: Vec<pc_abi::PcDiagnostic>)
        default_ensures
            diagnostics@.len() == 0,
    {
        Vec::new()
    }

    /// The ranges of a buffer that can be folded.
    fn folding_range(&self, _uri: &str) -> (ranges: Vec<pc_abi::FoldingRange>)
        default_ensures
            ranges@.len() == 0,
    {
        Vec::new()
    }
}

/// A location as the presentation compiler found it.
pub open spec fn location_of(location: pc_abi::Location) -> PcLocation {
    PcLocation {
        uri: location.uri,
        start_line: location.range.start_line,
        start_character: location.range.start_character,
        end_line: location.range.end_line,
        end_character: location.range.end_character,
    }
}

/// A location as the presentation compiler found it.
pub fn pc_location_of(location: pc_abi::Location) -> (found: PcLocation)
    ensures
        found == location_of(location),
{
    PcLocation {
        uri: location.uri,
        start_line: location.range.start_line,
        start_character: location.range.start_character,
        end_line: location.range.end_line,
        end_character: location.range.end_character,
    }
}

/// The span of a range.
pub open spec fn span_of(range: Rng) -> PcSpan {
    PcSpan {
        start_line: range.start_line,
        start_character: range.start_character,
        end_line: range.end_line,
        end_character: range.end_character,
    }
}

/// The span of a range.
pub fn pc_span_of(range: Rng) -> (span: PcSpan)
    ensures
        span == span_of(range),
{
    PcSpan {
        start_line: range.start_line,
        start_character: range.start_character,
        end_line: range.end_line,
        end_character: range.end_character,
    }
}

/// The origin of an ordinal. One that is not known counts as synthetic: it lies
/// outside of the workspace.
pub open spec fn origin_of(ordinal: u32) -> PcDefOrigin {
    if ordinal == pc_abi::ORIGIN_WORKSPACE {
        PcDefOrigin::Workspace
    } else if ordinal == pc_abi::ORIGIN_PLUGIN {
        PcDefOrigin::Plugin
    } else {
        PcDefOrigin::Synthetic
    }
}

/// The origin of an ordinal.
pub fn pc_def_origin_of(ordinal: u32) -> (origin: PcDefOrigin)
    ensures
        origin == origin_of(ordinal),
{
    if ordinal == pc_abi::ORIGIN_WORKSPACE {
        PcDefOrigin::Workspace
    } else if ordinal == pc_abi::ORIGIN_PLUGIN {
        PcDefOrigin::Plugin
    } else {
        PcDefOrigin::Synthetic
    }
}

/// The location of a definition.
pub open spec fn def_location_of(location: pc_abi::Location) -> PcDefLocation {
    PcDefLocation {
        uri: location.uri,
        span: span_of(location.range),
        origin: origin_of(location.origin),
    }
}

/// The locations of a list of definitions.
pub open spec fn def_locations_of(locations: Seq<pc_abi::Location>) -> Seq<PcDefLocation> {
    locations.map_values(|l: pc_abi::Location| def_location_of(l))
}

/// The locations that the presentation compiler found.
pub open spec fn locations_of(locations: Seq<pc_abi::Location>) -> Seq<PcLocation> {
    locations.map_values(|l: pc_abi::Location| location_of(l))
}

/// Each location of a definition is answered, in order, with its own URI and coordinates, and
/// with its origin: 0 is the workspace, 2 a plugin, and everything else is synthetic.
pub proof fn law_each_definition_answered(found: Seq<pc_abi::Location>)
    ensures
        locations_of(found).len() == found.len(),
        forall|k: int|
            0 <= k < found.len() ==> {
                let answered = #[trigger] locations_of(found)[k];
                &&& answered.uri == found[k].uri
                &&& answered.start_line == found[k].range.start_line
                &&& answered.start_character == found[k].range.start_character
                &&& answered.end_line == found[k].range.end_line
                &&& answered.end_character == found[k].range.end_character
            },
        def_locations_of(found).len() == found.len(),
        forall|k: int|
            0 <= k < found.len() ==> {
                let answered = #[trigger] def_locations_of(found)[k];
                &&& answered.uri == found[k].uri
                &&& answered.span.start_line == found[k].range.start_line
                &&& answered.span.start_character == found[k].range.start_character
                &&& answered.span.end_line == found[k].range.end_line
                &&& answered.span.end_character == found[k].range.end_character
                &&& answered.origin is Workspace <==> found[k].origin == 0
                &&& answered.origin is Plugin <==> found[k].origin == 2
            },
{
}

/// The definition that a result holds.
pub fn pc_definition_of(result: &DefinitionResult) -> (definition: PcDefinition)
    ensures
        definition.symbol == result.symbol,
        definition.locations@ == def_locations_of(result.locations@),
{
    let ghost all = def_locations_of(result.locations@);
    let mut locations: Vec<PcDefLocation> = Vec::new();
    let mut i: usize = 0;
    while i < result.locations.len()
        invariant
            i <= result.locations@.len(),
            all == def_locations_of(result.locations@),
            locations@ == all.take(i as int),
        decreases result.locations.len() - i,
    {
        let location = &result.locations[i];
        locations.push(
            PcDefLocation {
                uri: location.uri.clone(),
                span: pc_span_of(location.range),
                origin: pc_def_origin_of(location.origin),
            },
        );
        i += 1;
        assert(all.take(i as int) =~= all.take(i - 1).push(all[i - 1]));
    }
    assert(all.take(i as int) =~= all);
    PcDefinition { symbol: result.symbol.clone(), locations }
}

/// The locations that a definition query answers: none where there is no reply.
pub fn definition_locations(reply: Option<DefinitionResult>) -> (locations: Vec<PcLocation>)
    ensures
        match reply {
            Some(result) => locations@ == locations_of(result.locations@),
            None => locations@ == Seq::<PcLocation>::empty(),
        },
{
    let mut locations: Vec<PcLocation> = Vec::new();
    match reply {
        Some(result) => {
            let ghost all = locations_of(result.locations@);
            let mut i: usize = 0;
            while i < result.locations.len()
                invariant
                    i <= result.locations@.len(),
                    all == locations_of(result.locations@),
                    locations@ == all.take(i as int),
                decreases result.locations.len() - i,
            {
                let location = &result.locations[i];
                locations.push(
                    pc_location_of(
                        pc_abi::Location {
                            uri: location.uri.clone(),
                            range: location.range,
                            origin: location.origin,
                        },
                    ),
                );
                i += 1;
                assert(all.take(i as int) =~= all.take(i - 1).push(all[i - 1]));
            }
            assert(all.take(i as int) =~= all);
        },
        None => {},
    }
    locations
}

/// The definition that a query answers: an empty one where there is no reply.
pub fn definition_reply(reply: Option<&DefinitionResult>) -> (definition: PcDefinition)
    ensures
        match reply {
            Some(result) => definition.symbol == result.symbol && definition.locations@
                == def_locations_of(result.locations@),
            None => definition.symbol@ == Seq::<char>::empty() && definition.locations@ == Seq::<
                PcDefLocation,
            >::empty(),
        },
{
    match reply {
        Some(result) => pc_definition_of(result),
        None => PcDefinition { symbol: String::new(), locations: Vec::new() },
    }
}

/// The span that a prepare-rename query answers.
pub fn prepare_rename_reply(reply: Option<Option<Rng>>) -> (span: Option<PcSpan>)
    ensures
        span == (match reply {
            Some(Some(range)) => Some(span_of(range)),
            _ => None,
        }),
{
    match reply {
        Some(Some(range)) => Some(pc_span_of(range)),
        _ => None,
    }
}

/// The completions that a query answers: an empty list where there is no reply.
pub fn completion_reply(reply: Option<&pc_abi::CompletionList>) -> (value: Json)
    ensures
        value@ == (match reply {
            Some(list) => pc_convert::completion_list_json(*list),
            None => pc_convert::no_completions(),
        }),
{
    match reply {
        Some(list) => pc_convert::completion_list(list),
        None => pc_convert::empty_completions(),
    }
}

/// The hover that a query answers: null where there is no reply or nothing to show.
pub fn hover_reply(reply: Option<&pc_abi::HoverResult>) -> (value: Json)
    ensures
        value@ == (match reply {
            Some(result) => pc_convert::hover_result_json(*result),
            None => JsonV::Null,
        }),
{
    match reply {
        Some(result) => pc_convert::hover_result(result),
        None => Json::Null,
    }
}

/// The signature help that a query answers: null where there is no reply.
pub fn signature_help_reply(reply: Option<&pc_abi::SignatureHelp>) -> (value: Json)
    ensures
        value@ == (match reply {
            Some(help) => pc_convert::signature_help_json(*help),
            None => JsonV::Null,
        }),
{
    match reply {
        Some(help) => pc_convert::signature_help(help),
        None => Json::Null,
    }
}

/// The answer to a query for a list of carriers: what came back, and nothing where
/// nothing did.
pub fn list_reply<T>(reply: Option<Vec<T>>) -> (list: Vec<T>)
    ensures
        match reply {
            Some(found) => list == found,
            None => list@.len() == 0,
        },
{
    match reply {
        Some(found) => found,
        None => Vec::new(),
    }
}

/// The answer to a code action: what came back, with a refusal as data, and neither
/// edits nor a refusal where nothing did.
pub fn code_action_reply(reply: Option<pc_abi::CodeActionResult>) -> (result:
    pc_abi::CodeActionResult)
    ensures
        match reply {
            Some(found) => result == found,
            None => result.edits@.len() == 0 && result.refusal is None,
        },
{
    match reply {
        Some(found) => found,
        None => pc_abi::CodeActionResult { edits: Vec::new(), refusal: None },
    }
}

/// The resolved completion item: the item itself where there is no reply.
pub fn resolve_reply(item: Json, reply: Option<&pc_abi::CompletionItem>) -> (value: Json)
    ensures
        value@ == (match reply {
            Some(resolved) => pc_convert::completion_item_json(*resolved),
            None => item@,
        }),
{
    match reply {
        Some(resolved) => pc_convert::completion_item(resolved),
        None => item,
    }
}

/// `shown` is the status of a compiler plugin.
pub open spec fn shows_compiler_plugin(
    shown: PcCompilerPluginStatus,
    plugin: pc_abi::CompilerPlugin,
) -> bool {
    &&& text::texts(shown.jars@) == text::texts(plugin.jars@)
    &&& text::texts(shown.options@) == text::texts(plugin.options@)
    &&& shown.loaded == plugin.loaded
    &&& shown.detail == plugin.detail
}

/// The status of a service plugin.
pub open spec fn service_plugin_of(plugin: pc_abi::ServicePlugin) -> PcServicePluginStatus {
    PcServicePluginStatus {
        id: plugin.id,
        source: plugin.source,
        enabled: plugin.enabled,
        self_test_ok: plugin.self_test_ok,
        self_test_detail: plugin.self_test_detail,
    }
}

/// A disabled plugin.
pub open spec fn disabled_plugin_of(plugin: pc_abi::DisabledPlugin) -> PcDisabledPlugin {
    PcDisabledPlugin { id: plugin.id, reason: plugin.reason }
}

/// `report` holds the status of all plugins, in order.
pub open spec fn reports(report: PcPluginStatusReport, status: pc_abi::PluginStatus) -> bool {
    &&& report.compiler_plugins@.len() == status.compiler_plugins@.len()
    &&& forall|i: int|
        0 <= i < status.compiler_plugins@.len() ==> shows_compiler_plugin(
            #[trigger] report.compiler_plugins@[i],
            status.compiler_plugins@[i],
        )
    &&& report.service_plugins@ == status.service_plugins@.map_values(
        |p: pc_abi::ServicePlugin| service_plugin_of(p),
    )
    &&& report.disabled@ == status.disabled@.map_values(
        |p: pc_abi::DisabledPlugin| disabled_plugin_of(p),
    )
}

/// The report of the status of all plugins.
pub fn plugin_status_report_of(status: &pc_abi::PluginStatus) -> (report: PcPluginStatusReport)
    ensures
        reports(report, *status),
{
    let mut compiler_plugins: Vec<PcCompilerPluginStatus> = Vec::new();
    let mut i: usize = 0;
    while i < status.compiler_plugins.len()
        invariant
            i <= status.compiler_plugins@.len(),
            compiler_plugins@.len() == i,
            forall|j: int|
                0 <= j < i ==> shows_compiler_plugin(
                    #[trigger] compiler_plugins@[j],
                    status.compiler_plugins@[j],
                ),
        decreases status.compiler_plugins.len() - i,
    {
        let plugin = &status.compiler_plugins[i];
        compiler_plugins.push(
            PcCompilerPluginStatus {
                jars: text::copy_list(plugin.jars.as_slice()),
                options: text::copy_list(plugin.options.as_slice()),
                loaded: plugin.loaded,
                detail: plugin.detail.clone(),
            },
        );
        i += 1;
    }
    let ghost services = status.service_plugins@.map_values(
        |p: pc_abi::ServicePlugin| service_plugin_of(p),
    );
    let mut service_plugins: Vec<PcServicePluginStatus> = Vec::new();
    let mut i: usize = 0;
    while i < status.service_plugins.len()
        invariant
            i <= status.service_plugins@.len(),
            services == status.service_plugins@.map_values(
                |p: pc_abi::ServicePlugin| service_plugin_of(p),
            ),
            service_plugins@ == services.take(i as int),
        decreases status.service_plugins.len() - i,
    {
        let plugin = &status.service_plugins[i];
        service_plugins.push(
            PcServicePluginStatus {
                id: plugin.id.clone(),
                source: plugin.source.clone(),
                enabled: plugin.enabled,
                self_test_ok: plugin.self_test_ok,
                self_test_detail: plugin.self_test_detail.clone(),
            },
        );
        i += 1;
        assert(services.take(i as int) =~= services.take(i - 1).push(services[i - 1]));
    }
    assert(services.take(i as int) =~= services);
    let ghost all = status.disabled@.map_values(
        |p: pc_abi::DisabledPlugin| disabled_plugin_of(p),
    );
    let mut disabled: Vec<PcDisabledPlugin> = Vec::new();
    let mut i: usize = 0;
    while i < status.disabled.len()
        invariant
            i <= status.disabled@.len(),
            all == status.disabled@.map_values(
                |p: pc_abi::DisabledPlugin| disabled_plugin_of(p),
            ),
            disabled@ == all.take(i as int),
        decreases status.disabled.len() - i,
    {
        let plugin = &status.disabled[i];
        disabled.push(PcDisabledPlugin { id: plugin.id.clone(), reason: plugin.reason.clone() });
        i += 1;
        assert(all.take(i as int) =~= all.take(i - 1).push(all[i - 1]));
    }
    assert(all.take(i as int) =~= all);
    PcPluginStatusReport { compiler_plugins, service_plugins, disabled }
}

/// A compiler option that makes the compiler write SemanticDB, with its value in
/// the argument behind it.
pub open spec fn takes_value(option: Seq<char>) -> bool {
    option == "-semanticdb-target"@ || option == "-sourceroot"@
}

/// A compiler option that makes the compiler write SemanticDB, alone or with its
/// value behind a colon.
pub open spec fn stands_alone(option: Seq<char>) -> bool {
    option == "-Xsemanticdb"@ || option == "-Ysemanticdb"@ || text::has_prefix(
        option,
        "-semanticdb-target:"@,
    ) || text::has_prefix(option, "-sourceroot:"@)
}

/// Compiler options without those that make the compiler write SemanticDB. An
/// option that lacks its value stays.
pub open spec fn without_semanticdb(options: Seq<Seq<char>>) -> Seq<Seq<char>>
    decreases options.len(),
{
    if options.len() == 0 {
        seq![]
    } else if takes_value(options[0]) && options.len() > 1 {
        without_semanticdb(options.skip(2))
    } else if stands_alone(options[0]) {
        without_semanticdb(options.skip(1))
    } else {
        seq![options[0]] + without_semanticdb(options.skip(1))
    }
}

/// Compiler options without those that make the compiler write SemanticDB.
pub fn pc_options(scalac_options: &[String]) -> (options: Vec<String>)
    ensures
        text::texts(options@) == without_semanticdb(text::texts(scalac_options@)),
{
    let ghost all = text::texts(scalac_options@);
    let mut options: Vec<String> = Vec::new();
    let mut i: usize = 0;
    assert(all.skip(0) =~= all);
    assert(text::texts(options@) + without_semanticdb(all) =~= without_semanticdb(all));
    proof {
        reveal_strlit("-Xsemanticdb");
        reveal_strlit("-Ysemanticdb");
        reveal_strlit("-semanticdb-target");
        reveal_strlit("-sourceroot");
        assert("-Xsemanticdb"@[1] == 'X' && "-Ysemanticdb"@[1] == 'Y');
        assert("-semanticdb-target"@[1] == 's' && "-sourceroot"@[1] == 's');
    }
    while i < scalac_options.len()
        invariant
            i <= scalac_options@.len(),
            all == text::texts(scalac_options@),
            text::texts(options@) + without_semanticdb(all.skip(i as int)) == without_semanticdb(
                all,
            ),
            "-Xsemanticdb"@[1] == 'X' && "-Ysemanticdb"@[1] == 'Y',
            "-semanticdb-target"@[1] == 's' && "-sourceroot"@[1] == 's',
        decreases scalac_options.len() - i,
    {
        let option = scalac_options[i].as_str();
        let ghost rest = all.skip(i as int);
        let ghost done = text::texts(options@);
        proof {
            assert(rest[0] == option@);
            assert(rest.skip(1) =~= all.skip(i + 1));
        }
        if text::same_text(option, "-Xsemanticdb") || text::same_text(option, "-Ysemanticdb") {
        } else if (text::same_text(option, "-semanticdb-target") || text::same_text(
            option,
            "-sourceroot",
        )) && i + 1 < scalac_options.len() {
            assert(rest.skip(2) =~= all.skip(i + 2));
            i += 1;
        } else if text::starts_with(option, "-semanticdb-target:") || text::starts_with(
            option,
            "-sourceroot:",
        ) {
        } else {
            options.push(scalac_options[i].clone());
            proof {
                assert(text::texts(options@) =~= done.push(option@));
                assert(done + (seq![option@] + without_semanticdb(all.skip(i + 1))) =~= done.push(
                    option@,
                ) + without_semanticdb(all.skip(i + 1)));
            }
        }
        i += 1;
    }
    assert(all.skip(i as int) =~= seq![]);
    assert(text::texts(options@) + without_semanticdb(all.skip(i as int)) =~= text::texts(
        options@,
    ));
    options
}

/// Options without anything about SemanticDB stay as they are.
pub proof fn law_other_options_kept(options: Seq<Seq<char>>)
    requires
        forall|i: int|
            0 <= i < options.len() ==> !takes_value(#[trigger] options[i]) && !stands_alone(
                options[i],
            ),
    ensures
        without_semanticdb(options) == options,
    decreases options.len(),
{
    if options.len() > 0 {
        assert(!takes_value(options[0]));
        let rest = options.skip(1);
        assert forall|i: int| 0 <= i < rest.len() implies !takes_value(#[trigger] rest[i])
            && !stands_alone(rest[i]) by {
            assert(rest[i] == options[i + 1]);
        }
        law_other_options_kept(rest);
        assert(seq![options[0]] + rest =~= options);
    }
}

/// Options that went through once stay as they are.
pub proof fn law_options_settle(options: Seq<Seq<char>>)
    ensures
        without_semanticdb(without_semanticdb(options)) == without_semanticdb(options),
{
    lemma_kept_options(options);
    lemma_settled(without_semanticdb(options));
}

/// Nothing that is left is dropped: what stands alone is gone, and only the last option
/// may lack its value.
spec fn settled(options: Seq<Seq<char>>) -> bool {
    forall|i: int|
        0 <= i < options.len() ==> !stands_alone(#[trigger] options[i]) && (takes_value(options[i])
            ==> i == options.len() - 1)
}

proof fn lemma_kept_options(options: Seq<Seq<char>>)
    ensures
        settled(without_semanticdb(options)),
    decreases options.len(),
{
    if options.len() == 0 {
    } else if takes_value(options[0]) && options.len() > 1 {
        lemma_kept_options(options.skip(2));
    } else if stands_alone(options[0]) {
        lemma_kept_options(options.skip(1));
    } else {
        let rest = without_semanticdb(options.skip(1));
        lemma_kept_options(options.skip(1));
        let all = seq![options[0]] + rest;
        if options.len() == 1 {
            assert(options.skip(1) =~= seq![]);
        }
        assert forall|i: int| 0 <= i < all.len() implies !stands_alone(#[trigger] all[i]) && (
        takes_value(all[i]) ==> i == all.len() - 1) by {
            if i > 0 {
                assert(all[i] == rest[i - 1]);
            }
        }
    }
}

proof fn lemma_settled(options: Seq<Seq<char>>)
    requires
        settled(options),
    ensures
        without_semanticdb(options) == options,
    decreases options.len(),
{
    if options.len() > 0 {
        assert(!stands_alone(options[0]));
        let rest = options.skip(1);
        assert forall|i: int| 0 <= i < rest.len() implies !stands_alone(#[trigger] rest[i]) && (
        takes_value(rest[i]) ==> i == rest.len() - 1) by {
            assert(rest[i] == options[i + 1]);
        }
        lemma_settled(rest);
        assert(seq![options[0]] + rest =~= options);
    }
}

/// A Java home, or the home inside of it where it is the root of a Nix package:
/// there the `release` file lies in `lib/openjdk`. `home_file` and `nested_file`
/// tell where that file is.
pub open spec fn home_in(home: Seq<char>, home_file: bool, nested_file: bool) -> Seq<char> {
    if !home_file && nested_file {
        paths::joined_path(home, "lib/openjdk"@)
    } else {
        home
    }
}

/// `found` is a Java home as the file test places it.
pub open spec fn normal_home<F: Fn(&str) -> bool>(
    is_file: F,
    home: Seq<char>,
    found: Seq<char>,
) -> bool {
    let nested = paths::joined_path(home, "lib/openjdk"@);
    ||| paths::says(is_file, paths::joined_path(home, "release"@), true) && found == home_in(
        home,
        true,
        false,
    )
    ||| paths::says(is_file, paths::joined_path(home, "release"@), false) && paths::says(
        is_file,
        paths::joined_path(nested, "release"@),
        true,
    ) && found == home_in(home, false, true)
    ||| paths::says(is_file, paths::joined_path(home, "release"@), false) && paths::says(
        is_file,
        paths::joined_path(nested, "release"@),
        false,
    ) && found == home_in(home, false, false)
}

/// A Java home, or the home inside of it where it is the root of a Nix package.
pub fn normalize_java_home<F: Fn(&str) -> bool>(home: String, is_file: &F) -> (found: String)
    requires
        forall|path: &str| is_file.requires((path,)),
    ensures
        normal_home(*is_file, home@, found@),
{
    let release = paths::join_path(home.as_str(), "release");
    let here = is_file(release.as_str());
    assert(paths::says(*is_file, release@, here));
    if here {
        return home;
    }
    let nested = paths::join_path(home.as_str(), "lib/openjdk");
    let inner = paths::join_path(nested.as_str(), "release");
    let there = is_file(inner.as_str());
    assert(paths::says(*is_file, inner@, there));
    if there {
        nested
    } else {
        home
    }
}

/// The Java home that the settings name: the configuration before the directory of
/// `LS_LIBJVM`, and that before `JAVA_HOME`.
pub open spec fn named_home(
    config: Option<Seq<char>>,
    ls_libjvm: Option<Seq<char>>,
    java_home: Option<Seq<char>>,
) -> Option<Seq<char>> {
    match config::entry(config, "javaHome"@) {
        Some(home) => Some(home),
        None => match ls_libjvm {
            Some(libjvm) => paths::ancestor_of(libjvm, 3),
            None => java_home,
        },
    }
}

/// The Java home of the island.
pub fn resolve_java_home<F: Fn(&str) -> bool>(
    config: Option<&str>,
    ls_libjvm: Option<&str>,
    java_home: Option<&str>,
    is_file: &F,
) -> (home: Option<String>)
    requires
        forall|path: &str| is_file.requires((path,)),
    ensures
        ({
            let named = named_home(
                logging::optional_text(config),
                logging::optional_text(ls_libjvm),
                logging::optional_text(java_home),
            );
            match home {
                Some(home) => named is Some && normal_home(*is_file, named->0, home@),
                None => named is None,
            }
        }),
{
    let named: Option<String> = match config::config_string(config, "javaHome") {
        Some(home) => Some(home),
        None => match ls_libjvm {
            Some(libjvm) => paths::ancestor(libjvm, 3),
            None => match java_home {
                Some(home) => Some(home.to_owned()),
                None => None,
            },
        },
    };
    match named {
        Some(home) => Some(normalize_java_home(home, is_file)),
        None => None,
    }
}

/// The error of an island without a Java home.
pub open spec fn no_java_home() -> Seq<char> {
    "no Java home for the PC island: set javaHome in .scala3-bsp-semantic-ls/config.json, or LS_LIBJVM / JAVA_HOME in the environment"@
}

/// The error of an island without its agent.
pub open spec fn no_agent_jar() -> Seq<char> {
    "PC_HOST_AGENT_JAR must point at the island host agent jar to boot the PC island"@
}

/// `libjvm` is the JVM below a Java home as the file test places it.
pub open spec fn below_home<F: Fn(&str) -> bool>(
    is_file: F,
    home: Seq<char>,
    libjvm: Seq<char>,
) -> bool {
    exists|found: Seq<char>| #[trigger]
        normal_home(is_file, home, found) && libjvm == paths::joined_path(
            found,
            "lib/server/libjvm.so"@,
        )
}

/// `libjvm` is the JVM that the settings name: below the Java home of the
/// configuration, or `LS_LIBJVM` itself, or below `JAVA_HOME`. A Java home is taken as
/// `resolve_java_home` takes it.
pub open spec fn is_libjvm<F: Fn(&str) -> bool>(
    is_file: F,
    config: Option<Seq<char>>,
    ls_libjvm: Option<Seq<char>>,
    java_home: Option<Seq<char>>,
    libjvm: Seq<char>,
) -> bool {
    match config::entry(config, "javaHome"@) {
        Some(home) => below_home(is_file, home, libjvm),
        None => match ls_libjvm {
            Some(path) => libjvm == path,
            None => match java_home {
                Some(home) => below_home(is_file, home, libjvm),
                None => false,
            },
        },
    }
}

fn libjvm_below<F: Fn(&str) -> bool>(home: String, is_file: &F) -> (libjvm: String)
    requires
        forall|path: &str| is_file.requires((path,)),
    ensures
        below_home(*is_file, home@, libjvm@),
{
    let ghost named = home@;
    let found = normalize_java_home(home, is_file);
    let libjvm = paths::join_path(found.as_str(), "lib/server/libjvm.so");
    assert(normal_home(*is_file, named, found@));
    libjvm
}

/// The JVM that the island boots is the one below the Java home that
/// `resolve_java_home` reports, unless `LS_LIBJVM` names a JVM of its own.
pub proof fn law_reported_home_boots<F: Fn(&str) -> bool>(
    is_file: F,
    config: Option<Seq<char>>,
    ls_libjvm: Option<Seq<char>>,
    java_home: Option<Seq<char>>,
    libjvm: Seq<char>,
)
    requires
        is_libjvm(is_file, config, ls_libjvm, java_home, libjvm),
        config::entry(config, "javaHome"@) is Some || ls_libjvm is None,
    ensures
        named_home(config, ls_libjvm, java_home) matches Some(home) && below_home(
            is_file,
            home,
            libjvm,
        ),
{
}

/// The JVM and the agent of the island.
pub fn resolve_island_paths<F: Fn(&str) -> bool>(
    config: Option<&str>,
    ls_libjvm: Option<&str>,
    java_home: Option<&str>,
    agent_jar: Option<&str>,
    is_file: &F,
) -> (found: Result<(String, String), String>)
    requires
        forall|path: &str| is_file.requires((path,)),
    ensures
        ({
            let named = config::entry(logging::optional_text(config), "javaHome"@) is Some
                || ls_libjvm is Some || java_home is Some;
            match found {
                Ok((libjvm, jar)) => named && is_libjvm(
                    *is_file,
                    logging::optional_text(config),
                    logging::optional_text(ls_libjvm),
                    logging::optional_text(java_home),
                    libjvm@,
                ) && agent_jar is Some && jar@ == agent_jar->0@,
                Err(message) => if named {
                    agent_jar is None && message@ == no_agent_jar()
                } else {
                    message@ == no_java_home()
                },
            }
        }),
{
    let libjvm: String = match config::config_string(config, "javaHome") {
        Some(home) => libjvm_below(home, is_file),
        None => match ls_libjvm {
            Some(path) => path.to_owned(),
            None => match java_home {
                Some(home) => libjvm_below(home.to_owned(), is_file),
                None => {
                    return Err(
                        "no Java home for the PC island: set javaHome in .scala3-bsp-semantic-ls/config.json, or LS_LIBJVM / JAVA_HOME in the environment".to_owned(),
                    );
                },
            },
        },
    };
    assert(is_libjvm(
        *is_file,
        logging::optional_text(config),
        logging::optional_text(ls_libjvm),
        logging::optional_text(java_home),
        libjvm@,
    ));
    match agent_jar {
        Some(jar) => Ok((libjvm, jar.to_owned())),
        None => Err(
            "PC_HOST_AGENT_JAR must point at the island host agent jar to boot the PC island".to_owned(),
        ),
    }
}

/// The time a request may take, in seconds.
pub const REQUEST_DEADLINE: u64 = 120;

/// The time a request may take while faults are injected, in seconds.
pub const FAULT_REQUEST_DEADLINE: u64 = 20;

/// The time a cold JVM may take to report, in seconds.
pub const RENDEZVOUS_TIMEOUT: u64 = 60;

/// How many wedged generations of workers are left behind before the island gives up.
pub const MAX_ABANDONED_GENERATIONS: u32 = 4;

/// The time a cancelled request may take to end, in milliseconds.
pub const CANCEL_GRACE: u64 = 500;

/// How the island boots.
#[derive(Debug, PartialEq, Eq)]
pub struct BootPlan {
    pub libjvm: String,
    pub agent_jar: String,
    pub workspace_root: String,
    pub jvm_options: Vec<String>,
    /// In seconds.
    pub request_deadline: u64,
    /// In seconds.
    pub rendezvous_timeout: u64,
    pub max_abandoned_generations: u32,
    /// In milliseconds.
    pub cancel_grace: u64,
}

impl BootPlan {
    /// The options and limits for a fault that is to be injected, or for none.
    pub open spec fn limits_follow(self, test_fault: Option<&str>) -> bool {
        let fault = test_fault is Some && test_fault->0@.len() > 0;
        &&& text::texts(self.jvm_options@) == (if fault {
            seq!["-Dls.pc.host.testFault="@ + test_fault->0@]
        } else {
            seq![]
        })
        &&& self.request_deadline == (if fault {
            FAULT_REQUEST_DEADLINE
        } else {
            REQUEST_DEADLINE
        })
        &&& self.rendezvous_timeout == RENDEZVOUS_TIMEOUT
        &&& self.max_abandoned_generations == MAX_ABANDONED_GENERATIONS
        &&& self.cancel_grace == CANCEL_GRACE
    }
}

/// How the island of a workspace boots with the given JVM and agent. A fault that is to
/// be injected is handed to the JVM, and shortens the time a request may take.
pub fn boot_plan(
    libjvm: String,
    agent_jar: String,
    workspace_root: String,
    test_fault: Option<&str>,
) -> (plan: BootPlan)
    ensures
        plan.libjvm == libjvm,
        plan.agent_jar == agent_jar,
        plan.workspace_root == workspace_root,
        plan.limits_follow(test_fault),
{
    let mut jvm_options: Vec<String> = Vec::new();
    let mut request_deadline = REQUEST_DEADLINE;
    assert(text::texts(jvm_options@) =~= seq![]);
    match test_fault {
        Some(kind) => {
            if text::chars_of(kind).len() > 0 {
                let mut option = "-Dls.pc.host.testFault=".to_owned();
                text::push_text(&mut option, kind);
                let ghost t = option@;
                jvm_options.push(option);
                assert(text::texts(jvm_options@) =~= seq![t]);
                request_deadline = FAULT_REQUEST_DEADLINE;
            }
        },
        None => {},
    }
    BootPlan {
        libjvm,
        agent_jar,
        workspace_root,
        jvm_options,
        request_deadline,
        rendezvous_timeout: RENDEZVOUS_TIMEOUT,
        max_abandoned_generations: MAX_ABANDONED_GENERATIONS,
        cancel_grace: CANCEL_GRACE,
    }
}

/// What the island is told.
#[derive(Debug, PartialEq, Eq)]
pub enum PcRequest {
    RegisterTarget { config: TargetConfig },
    DidOpen { target_id: String, uri: String, text: String },
    DidChange { uri: String, text: String },
    DidClose { uri: String },
}

/// The model of what the island is told.
pub enum PcRequestV {
    RegisterTarget(pc_abi::TargetConfigV),
    DidOpen(Seq<char>, Seq<char>, Seq<char>),
    DidChange(Seq<char>, Seq<char>),
    DidClose(Seq<char>),
}

impl View for PcRequest {
    type V = PcRequestV;

    open spec fn view(&self) -> PcRequestV {
        match self {
            PcRequest::RegisterTarget { config } => PcRequestV::RegisterTarget(config@),
            PcRequest::DidOpen { target_id, uri, text } => PcRequestV::DidOpen(
                target_id@,
                uri@,
                text@,
            ),
            PcRequest::DidChange { uri, text } => PcRequestV::DidChange(uri@, text@),
            PcRequest::DidClose { uri } => PcRequestV::DidClose(uri@),
        }
    }
}

/// How the island answered.
#[derive(Clone, Copy, Debug, PartialEq, Eq, Structural)]
pub enum Outcome {
    /// It did what it was told.
    Done,
    /// It did not answer in time. It is told again when it recovers.
    RequestTimeout,
    /// It refused, with a status.
    Backend(i32),
    /// It could not be reached.
    Unavailable,
}

/// Whether the mirror follows: always, unless the island refused.
pub open spec fn is_accepted(outcome: Outcome) -> bool {
    !(outcome is Backend)
}

/// Whether the mirror follows an outcome.
pub fn accepted(outcome: &Outcome) -> (r: bool)
    ensures
        r == is_accepted(*outcome),
{
    match outcome {
        Outcome::Backend(_) => false,
        _ => true,
    }
}

/// The mirror of the island.
pub struct IslandV {
    pub workspace_root: Seq<char>,
    pub targets: Seq<pc_abi::TargetConfigV>,
    /// The target and the text of each open URI.
    pub buffers: Map<Seq<char>, (Seq<char>, Seq<char>)>,
    pub booted: bool,
    pub boot_error: Option<Seq<char>>,
}

impl IslandV {
    /// Whether a target is registered.
    pub open spec fn has_target(self, id: Seq<char>) -> bool {
        exists|i: int| 0 <= i < self.targets.len() && (#[trigger] self.targets[i]).bsp_id == id
    }
}

/// The mirror behind a request that the island accepted.
pub open spec fn applied(island: IslandV, request: PcRequestV) -> IslandV {
    match request {
        PcRequestV::RegisterTarget(_) => island,
        PcRequestV::DidOpen(target, uri, text) => IslandV {
            buffers: island.buffers.insert(uri, (target, text)),
            ..island
        },
        PcRequestV::DidChange(uri, text) => if island.buffers.contains_key(uri) {
            IslandV {
                buffers: island.buffers.insert(uri, (island.buffers[uri].0, text)),
                ..island
            }
        } else {
            island
        },
        PcRequestV::DidClose(uri) => IslandV { buffers: island.buffers.remove(uri), ..island },
    }
}

/// Whether a document notification concerns the island: a buffer is opened for a
/// registered target only, and changed only while it is open.
pub open spec fn concerns(island: IslandV, request: PcRequestV) -> bool {
    match request {
        PcRequestV::RegisterTarget(_) => true,
        PcRequestV::DidOpen(target, _, _) => island.has_target(target),
        PcRequestV::DidChange(uri, _) => island.buffers.contains_key(uri),
        PcRequestV::DidClose(_) => true,
    }
}

/// What is to be done with a document notification.
#[derive(Debug, PartialEq, Eq)]
pub enum Forward {
    /// Nothing.
    Ignored,
    /// The mirror has it; the island is not running.
    Mirrored,
    /// The island is to be told. The mirror follows once the outcome is known.
    Send(PcRequest),
}

/// What becomes of a document notification, and of the mirror.
pub open spec fn notified(
    before: IslandV,
    after: IslandV,
    request: PcRequestV,
    forward: Forward,
) -> bool {
    if !concerns(before, request) {
        forward is Ignored && after == before
    } else if before.booted {
        after == before && (forward matches Forward::Send(sent) && sent@ == request)
    } else {
        forward is Mirrored && after == applied(before, request)
    }
}

struct Buffered {
    target_id: String,
    text: String,
}

/// The presentation compiler service.
pub struct IslandPcService {
    workspace_root: String,
    targets: Vec<TargetConfig>,
    buffers: StrMap<Buffered>,
    booted: bool,
    boot_error: Option<String>,
}

/// The models of a list of targets.
pub open spec fn target_views(targets: Seq<TargetConfig>) -> Seq<pc_abi::TargetConfigV> {
    targets.map_values(|t: TargetConfig| t@)
}

impl View for IslandPcService {
    type V = IslandV;

    closed spec fn view(&self) -> IslandV {
        IslandV {
            workspace_root: self.workspace_root@,
            targets: target_views(self.targets@),
            buffers: self.buffers@.map_values(|b: Buffered| (b.target_id@, b.text@)),
            booted: self.booted,
            boot_error: match self.boot_error {
                Some(detail) => Some(detail@),
                None => None,
            },
        }
    }
}

/// What a query does.
#[derive(Clone, Copy, Debug, PartialEq, Eq, Structural)]
pub enum DispatchGate {
    /// The island is running: it is asked.
    Ask,
    /// The island is booted first.
    Boot,
    /// The island failed to boot: there is no answer.
    Refuse,
}

/// The models of a list of requests.
pub open spec fn request_views(requests: Seq<PcRequest>) -> Seq<PcRequestV> {
    requests.map_values(|r: PcRequest| r@)
}

/// The registrations of a list of targets.
pub open spec fn registrations(targets: Seq<pc_abi::TargetConfigV>) -> Seq<PcRequestV> {
    targets.map_values(|t: pc_abi::TargetConfigV| PcRequestV::RegisterTarget(t))
}

/// The openings of the buffers with the given URIs.
pub open spec fn openings(
    uris: Seq<Seq<char>>,
    buffers: Map<Seq<char>, (Seq<char>, Seq<char>)>,
) -> Seq<PcRequestV> {
    uris.map_values(
        |uri: Seq<char>| PcRequestV::DidOpen(buffers[uri].0, uri, buffers[uri].1),
    )
}

/// The index of the first refusal, or the number of outcomes.
pub open spec fn first_refusal(outcomes: Seq<Outcome>) -> int
    decreases outcomes.len(),
{
    if outcomes.len() == 0 || !is_accepted(outcomes[0]) {
        0
    } else {
        1 + first_refusal(outcomes.drop_first())
    }
}

/// The error of a refused request of a replay.
pub open spec fn refusal(request: PcRequestV) -> Seq<char> {
    match request {
        PcRequestV::RegisterTarget(target) => "PC target '"@ + target.bsp_id
            + "' registration rejected by the island"@,
        PcRequestV::DidOpen(_, uri, _) => "PC buffer '"@ + uri + "' replay rejected by the island"@,
        PcRequestV::DidChange(uri, _) => "PC buffer '"@ + uri + "' replay rejected by the island"@,
        PcRequestV::DidClose(uri) => "PC buffer '"@ + uri + "' replay rejected by the island"@,
    }
}

fn find_refusal(outcomes: &[Outcome]) -> (index: usize)
    ensures
        index == first_refusal(outcomes@),
        index <= outcomes@.len(),
{
    let mut i: usize = 0;
    assert(outcomes@.skip(0) =~= outcomes@);
    while i < outcomes.len() && accepted(&outcomes[i])
        invariant
            i <= outcomes@.len(),
            first_refusal(outcomes@) == i + first_refusal(outcomes@.skip(i as int)),
        decreases outcomes.len() - i,
    {
        assert(outcomes@.skip(i as int).drop_first() =~= outcomes@.skip(i + 1));
        i += 1;
    }
    i
}

/// Whether a row of requests is over: each was answered, or one was refused.
pub open spec fn is_over(requests: nat, outcomes: Seq<Outcome>) -> bool {
    outcomes.len() <= requests && (outcomes.len() == requests || first_refusal(outcomes)
        < outcomes.len())
}

/// The index of the request to be sent next, given the outcomes of those before it.
/// After a refusal nothing more is sent.
pub fn next_to_send(requests: &[PcRequest], outcomes: &[Outcome]) -> (next: Option<usize>)
    requires
        outcomes@.len() <= requests@.len(),
    ensures
        next == (if is_over(requests@.len(), outcomes@) {
            None
        } else {
            Some(outcomes@.len() as usize)
        }),
{
    if outcomes.len() == requests.len() || find_refusal(outcomes) < outcomes.len() {
        None
    } else {
        Some(outcomes.len())
    }
}

/// No request is sent behind a refused one: where there is a next request, each before
/// it was accepted.
pub proof fn law_refusal_ends_row(requests: nat, outcomes: Seq<Outcome>)
    requires
        outcomes.len() <= requests,
        !is_over(requests, outcomes),
    ensures
        forall|i: int| 0 <= i < outcomes.len() ==> is_accepted(#[trigger] outcomes[i]),
    decreases outcomes.len(),
{
    if outcomes.len() > 0 {
        let rest = outcomes.drop_first();
        law_refusal_ends_row((requests - 1) as nat, rest);
        assert forall|i: int| 0 <= i < outcomes.len() implies is_accepted(#[trigger] outcomes[i]) by {
            if i > 0 {
                assert(rest[i - 1] == outcomes[i]);
            }
        }
    }
}

/// What a freshly booted island is told: every target, then every open buffer, in URI
/// order.
pub open spec fn replays(island: IslandV, requests: Seq<PcRequestV>) -> bool {
    exists|uris: Seq<Seq<char>>| #[trigger]
        order::strictly_sorted(uris) && uris.to_set() == island.buffers.dom() && requests
            == registrations(island.targets) + openings(uris, island.buffers)
}

/// How much a freshly booted island is told.
pub open spec fn replay_len(island: IslandV) -> nat {
    island.targets.len() + island.buffers.dom().len()
}

/// The island refused the replayed request with the given index.
pub open spec fn refused_replay(before: IslandV, after: IslandV, at: int) -> bool {
    exists|requests: Seq<PcRequestV>| #[trigger]
        replays(before, requests) && after == (IslandV {
            boot_error: Some(refusal(requests[at])),
            ..before
        })
}

fn register_all(targets: &Vec<TargetConfig>) -> (requests: Vec<PcRequest>)
    ensures
        request_views(requests@) == registrations(target_views(targets@)),
{
    let ghost all = registrations(target_views(targets@));
    let mut requests: Vec<PcRequest> = Vec::new();
    let mut i: usize = 0;
    assert(request_views(requests@) =~= all.take(0));
    while i < targets.len()
        invariant
            i <= targets@.len(),
            all == registrations(target_views(targets@)),
            request_views(requests@) == all.take(i as int),
        decreases targets.len() - i,
    {
        let ghost before = requests@;
        requests.push(PcRequest::RegisterTarget { config: targets[i].copy() });
        i += 1;
        assert(request_views(requests@) =~= request_views(before).push(all[i - 1]));
        assert(all.take(i as int) =~= all.take(i - 1).push(all[i - 1]));
    }
    assert(all.take(i as int) =~= all);
    requests
}

impl IslandPcService {
    /// A service for a workspace and its targets. It does not boot the island.
    pub fn new(workspace_root: String, targets: Vec<TargetConfig>) -> (service: IslandPcService)
        ensures
            service@ == (IslandV {
                workspace_root: workspace_root@,
                targets: target_views(targets@),
                buffers: Map::empty(),
                booted: false,
                boot_error: None,
            }),
    {
        let service = IslandPcService {
            workspace_root,
            targets,
            buffers: StrMap::new(),
            booted: false,
            boot_error: None,
        };
        assert(service@.buffers =~= Map::empty());
        service
    }

    /// Whether a target is registered.
    pub fn is_registered(&self, target_id: &str) -> (r: bool)
        ensures
            r == self@.has_target(target_id@),
    {
        let mut i: usize = 0;
        while i < self.targets.len()
            invariant
                i <= self.targets@.len(),
                forall|j: int| 0 <= j < i ==> (#[trigger] self@.targets[j]).bsp_id != target_id@,
            decreases self.targets.len() - i,
        {
            assert(self@.targets[i as int] == self.targets@[i as int]@);
            if text::same_text(self.targets[i].bsp_id.as_str(), target_id) {
                assert(self@.targets[i as int].bsp_id == target_id@);
                return true;
            }
            i += 1;
        }
        false
    }

    /// The registered targets, sorted.
    pub fn registered_targets(&self) -> (ids: Vec<String>)
        ensures
            order::sorted(text::texts(ids@)),
            text::texts(ids@).to_multiset() == self@.targets.map_values(
                |t: pc_abi::TargetConfigV| t.bsp_id,
            ).to_multiset(),
    {
        let ghost all = self@.targets.map_values(|t: pc_abi::TargetConfigV| t.bsp_id);
        let mut ids: Vec<String> = Vec::new();
        let mut i: usize = 0;
        assert(text::texts(ids@) =~= all.take(0));
        while i < self.targets.len()
            invariant
                i <= self.targets@.len(),
                all == self@.targets.map_values(|t: pc_abi::TargetConfigV| t.bsp_id),
                all.len() == self.targets@.len(),
                text::texts(ids@) == all.take(i as int),
            decreases self.targets.len() - i,
        {
            let ghost before = ids@;
            ids.push(self.targets[i].bsp_id.clone());
            i += 1;
            assert(all[i - 1] == self.targets@[i - 1].bsp_id@);
            assert(text::texts(ids@) =~= text::texts(before).push(all[i - 1]));
            assert(all.take(i as int) =~= all.take(i - 1).push(all[i - 1]));
        }
        assert(all.take(i as int) =~= all);
        order::sort(ids.as_slice())
    }

    /// Whether a buffer is open.
    pub fn is_open(&self, uri: &str) -> (r: bool)
        ensures
            r == self@.buffers.contains_key(uri@),
    {
        self.buffers.contains(uri)
    }

    /// The text of an open buffer.
    pub fn buffer_text(&self, uri: &str) -> (text: Option<String>)
        ensures
            match text {
                Some(t) => self@.buffers.contains_key(uri@) && t@ == self@.buffers[uri@].1,
                None => !self@.buffers.contains_key(uri@),
            },
    {
        match self.buffers.get(uri) {
            Some(buffered) => Some(buffered.text.clone()),
            None => None,
        }
    }

    /// Whether the island is running. Asking never boots it.
    pub fn booted(&self) -> (r: bool)
        ensures
            r == self@.booted,
    {
        self.booted
    }

    /// The plugin report from a reply of the island. An island that is not running
    /// gives none: asking for plugins never boots it.
    pub fn plugin_status(&self, reply: Option<&pc_abi::PluginStatus>) -> (report: Option<
        PcPluginStatusReport,
    >)
        ensures
            match report {
                Some(report) => self@.booted && reply is Some && reports(report, *reply->0),
                None => !self@.booted || reply is None,
            },
    {
        if !self.booted {
            return None;
        }
        match reply {
            Some(status) => Some(plugin_status_report_of(status)),
            None => None,
        }
    }

    /// The error of a boot or of a registration, if there was one.
    pub fn boot_error(&self) -> (detail: Option<String>)
        ensures
            match detail {
                Some(d) => self@.boot_error == Some(d@),
                None => self@.boot_error is None,
            },
    {
        match &self.boot_error {
            Some(detail) => Some(detail.clone()),
            None => None,
        }
    }

    fn insert_buffer(&mut self, target_id: &str, uri: &str, text: &str)
        ensures
            final(self)@ == (IslandV {
                buffers: old(self)@.buffers.insert(uri@, (target_id@, text@)),
                ..old(self)@
            }),
    {
        self.buffers.insert(
            uri.to_owned(),
            Buffered { target_id: target_id.to_owned(), text: text.to_owned() },
        );
        assert(self@.buffers =~= old(self)@.buffers.insert(uri@, (target_id@, text@)));
    }

    fn change_buffer(&mut self, uri: &str, text: &str)
        ensures
            final(self)@ == applied(old(self)@, PcRequestV::DidChange(uri@, text@)),
    {
        let target_id: Option<String> = match self.buffers.get(uri) {
            Some(buffered) => Some(buffered.target_id.clone()),
            None => None,
        };
        match target_id {
            Some(target_id) => {
                self.insert_buffer(target_id.as_str(), uri, text);
            },
            None => {},
        }
    }

    fn remove_buffer(&mut self, uri: &str)
        ensures
            final(self)@ == applied(old(self)@, PcRequestV::DidClose(uri@)),
    {
        self.buffers.remove(uri);
        assert(self@.buffers =~= old(self)@.buffers.remove(uri@));
    }

    /// A buffer was opened.
    pub fn did_open(&mut self, target_id: &str, uri: &str, text: &str) -> (forward: Forward)
        ensures
            notified(
                old(self)@,
                final(self)@,
                PcRequestV::DidOpen(target_id@, uri@, text@),
                forward,
            ),
    {
        if !self.is_registered(target_id) {
            return Forward::Ignored;
        }
        if self.booted {
            return Forward::Send(
                PcRequest::DidOpen {
                    target_id: target_id.to_owned(),
                    uri: uri.to_owned(),
                    text: text.to_owned(),
                },
            );
        }
        self.insert_buffer(target_id, uri, text);
        Forward::Mirrored
    }

    /// A buffer was changed.
    pub fn did_change(&mut self, uri: &str, text: &str) -> (forward: Forward)
        ensures
            notified(old(self)@, final(self)@, PcRequestV::DidChange(uri@, text@), forward),
    {
        if !self.is_open(uri) {
            return Forward::Ignored;
        }
        if self.booted {
            return Forward::Send(
                PcRequest::DidChange { uri: uri.to_owned(), text: text.to_owned() },
            );
        }
        self.change_buffer(uri, text);
        Forward::Mirrored
    }

    /// A buffer was closed.
    pub fn did_close(&mut self, uri: &str) -> (forward: Forward)
        ensures
            notified(old(self)@, final(self)@, PcRequestV::DidClose(uri@), forward),
    {
        if self.booted {
            return Forward::Send(PcRequest::DidClose { uri: uri.to_owned() });
        }
        self.remove_buffer(uri);
        Forward::Mirrored
    }

    /// The island answered a document notification. The mirror follows unless it
    /// refused: then it still holds what the island last accepted.
    pub fn settle(&mut self, request: &PcRequest, outcome: &Outcome)
        ensures
            final(self)@ == (if is_accepted(*outcome) {
                applied(old(self)@, request@)
            } else {
                old(self)@
            }),
    {
        if !accepted(outcome) {
            return;
        }
        match request {
            PcRequest::RegisterTarget { .. } => {},
            PcRequest::DidOpen { target_id, uri, text } => {
                self.insert_buffer(target_id.as_str(), uri.as_str(), text.as_str());
            },
            PcRequest::DidChange { uri, text } => {
                self.change_buffer(uri.as_str(), text.as_str());
            },
            PcRequest::DidClose { uri } => {
                self.remove_buffer(uri.as_str());
            },
        }
    }

    /// What a query does.
    pub fn dispatch(&self) -> (gate: DispatchGate)
        ensures
            gate == (if self@.booted {
                DispatchGate::Ask
            } else if self@.boot_error is Some {
                DispatchGate::Refuse
            } else {
                DispatchGate::Boot
            }),
    {
        if self.booted {
            DispatchGate::Ask
        } else if self.boot_error.is_some() {
            DispatchGate::Refuse
        } else {
            DispatchGate::Boot
        }
    }

    /// The island failed to boot. Later queries do not try again.
    pub fn boot_failed(&mut self, detail: String)
        ensures
            final(self)@ == (IslandV { boot_error: Some(detail@), ..old(self)@ }),
    {
        self.boot_error = Some(detail);
    }

    /// How the island boots with the given settings. A failure is recorded, and after
    /// one there is no other try. Where there is a plan, the application boots the
    /// JVM, sends what `replay` gives as far as `next_to_send` says, and goes on with
    /// `install_driver`; or it calls `boot_failed`.
    pub fn boot<F: Fn(&str) -> bool>(
        &mut self,
        config: Option<&str>,
        ls_libjvm: Option<&str>,
        java_home: Option<&str>,
        agent_jar: Option<&str>,
        test_fault: Option<&str>,
        is_file: &F,
    ) -> (plan: Option<BootPlan>)
        requires
            forall|path: &str| is_file.requires((path,)),
        ensures
            ({
                let named = config::entry(logging::optional_text(config), "javaHome"@) is Some
                    || ls_libjvm is Some || java_home is Some;
                match plan {
                    Some(plan) => {
                        &&& old(self)@.boot_error is None
                        &&& final(self)@ == old(self)@
                        &&& agent_jar is Some && plan.agent_jar@ == agent_jar->0@
                        &&& plan.workspace_root@ == old(self)@.workspace_root
                        &&& is_libjvm(
                            *is_file,
                            logging::optional_text(config),
                            logging::optional_text(ls_libjvm),
                            logging::optional_text(java_home),
                            plan.libjvm@,
                        )
                        &&& plan.limits_follow(test_fault)
                    },
                    None => if old(self)@.boot_error is Some {
                        final(self)@ == old(self)@
                    } else {
                        &&& !named || agent_jar is None
                        &&& final(self)@ == IslandV {
                            boot_error: Some(
                                if named {
                                    no_agent_jar()
                                } else {
                                    no_java_home()
                                },
                            ),
                            ..old(self)@
                        }
                    },
                }
            }),
    {
        if self.boot_error.is_some() {
            return None;
        }
        match resolve_island_paths(config, ls_libjvm, java_home, agent_jar, is_file) {
            Ok((libjvm, jar)) => Some(
                boot_plan(libjvm, jar, self.workspace_root.clone(), test_fault),
            ),
            Err(detail) => {
                self.boot_error = Some(detail);
                None
            },
        }
    }

    /// What a freshly booted island is told: every target, then every open buffer,
    /// in URI order.
    pub fn replay(&self) -> (requests: Vec<PcRequest>)
        ensures
            replays(self@, request_views(requests@)),
            requests@.len() == replay_len(self@),
    {
        let mut requests = register_all(&self.targets);
        let keys = self.buffers.sorted_keys();
        let ghost uris = text::texts(keys@);
        let ghost first = registrations(self@.targets);
        let ghost all = openings(uris, self@.buffers);
        let mut i: usize = 0;
        assert(request_views(requests@) =~= first + all.take(0));
        while i < keys.len()
            invariant
                i <= keys@.len(),
                uris == text::texts(keys@),
                uris.to_set() == self.buffers@.dom(),
                all == openings(uris, self@.buffers),
                request_views(requests@) == first + all.take(i as int),
            decreases keys.len() - i,
        {
            let ghost before = requests@;
            assert(uris[i as int] == keys@[i as int]@);
            assert(uris.contains(uris[i as int]));
            assert(self.buffers@.dom().contains(uris[i as int]));
            match self.buffers.get(keys[i].as_str()) {
                Some(buffered) => {
                    requests.push(
                        PcRequest::DidOpen {
                            target_id: buffered.target_id.clone(),
                            uri: keys[i].clone(),
                            text: buffered.text.clone(),
                        },
                    );
                },
                None => {},
            }
            i += 1;
            assert(request_views(requests@) =~= request_views(before).push(all[i - 1]));
            assert(first + all.take(i as int) =~= (first + all.take(i - 1)).push(all[i - 1]));
        }
        assert(all.take(i as int) =~= all);
        assert(self@.buffers.dom() =~= self.buffers@.dom());
        assert(order::strictly_sorted(uris));
        proof {
            order::lemma_sorted_distinct(uris);
            uris.unique_seq_to_set();
            assert(request_views(requests@).len() == requests@.len());
        }
        requests
    }

    /// The outcomes of a replay that is over. An island that refused anything is not
    /// used: it would lack a target or a buffer.
    pub fn install_driver(&mut self, outcomes: &[Outcome]) -> (installed: bool)
        requires
            is_over(replay_len(old(self)@), outcomes@),
        ensures
            installed == (first_refusal(outcomes@) == outcomes@.len()),
            installed ==> final(self)@ == (IslandV { booted: true, ..old(self)@ }),
            !installed ==> refused_replay(old(self)@, final(self)@, first_refusal(outcomes@)),
    {
        let at = find_refusal(outcomes);
        if at == outcomes.len() {
            self.booted = true;
            return true;
        }
        let requests = self.replay();
        let ghost views = request_views(requests@);
        assert(replays(self@, views) && views[at as int] == requests@[at as int]@);
        let mut detail = String::new();
        match &requests[at] {
            PcRequest::RegisterTarget { config } => {
                text::push_text(&mut detail, "PC target '");
                text::push_text(&mut detail, config.bsp_id.as_str());
                text::push_text(&mut detail, "' registration rejected by the island");
            },
            PcRequest::DidOpen { uri, .. } => {
                text::push_text(&mut detail, "PC buffer '");
                text::push_text(&mut detail, uri.as_str());
                text::push_text(&mut detail, "' replay rejected by the island");
            },
            PcRequest::DidChange { uri, .. } => {
                text::push_text(&mut detail, "PC buffer '");
                text::push_text(&mut detail, uri.as_str());
                text::push_text(&mut detail, "' replay rejected by the island");
            },
            PcRequest::DidClose { uri } => {
                text::push_text(&mut detail, "PC buffer '");
                text::push_text(&mut detail, uri.as_str());
                text::push_text(&mut detail, "' replay rejected by the island");
            },
        }
        assert(detail@ =~= refusal(views[at as int]));
        self.boot_error = Some(detail);
        false
    }

    /// Replaces the targets. A running island is to be told each of them.
    pub fn reconfigure_targets(&mut self, targets: Vec<TargetConfig>) -> (requests: Vec<PcRequest>)
        ensures
            final(self)@ == (IslandV { targets: target_views(targets@), ..old(self)@ }),
            request_views(requests@) == (if old(self)@.booted {
                registrations(target_views(targets@))
            } else {
                seq![]
            }),
    {
        let requests = if self.booted {
            register_all(&targets)
        } else {
            Vec::new()
        };
        assert(!self.booted ==> request_views(requests@) =~= seq![]);
        self.targets = targets;
        requests
    }

    /// The outcomes of telling a running island its targets, up to the first
    /// refusal. The targets stay as they are; a refusal is recorded.
    pub fn targets_registered(&mut self, outcomes: &[Outcome])
        requires
            outcomes@.len() <= old(self)@.targets.len(),
        ensures
            ({
                let at = first_refusal(outcomes@);
                final(self)@ == (if at < outcomes@.len() {
                    IslandV {
                        boot_error: Some(
                            "PC target '"@ + old(self)@.targets[at].bsp_id
                                + "' re-registration rejected by the island"@,
                        ),
                        ..old(self)@
                    }
                } else {
                    old(self)@
                })
            }),
    {
        let at = find_refusal(outcomes);
        if at >= outcomes.len() {
            return;
        }
        assert(self@.targets[at as int] == self.targets@[at as int]@);
        let mut detail = "PC target '".to_owned();
        text::push_text(&mut detail, self.targets[at].bsp_id.as_str());
        text::push_text(&mut detail, "' re-registration rejected by the island");
        self.boot_error = Some(detail);
    }

    /// The configuration file changed. An island that is not running may boot again;
    /// a running one keeps its JVM, and the change is ignored.
    pub fn on_config_changed(&mut self) -> (ignored: bool)
        ensures
            ignored == old(self)@.booted,
            final(self)@ == (if old(self)@.booted {
                old(self)@
            } else {
                IslandV { boot_error: None, ..old(self)@ }
            }),
    {
        if self.booted {
            return true;
        }
        self.boot_error = None;
        false
    }
}

/// A notification has the same effect on the mirror whether the island is running and
/// accepts it, or not running: the mirror always holds what the island has or will be
/// told.
pub proof fn law_mirror_agrees(cold: IslandV, hot: IslandV, request: PcRequestV)
    requires
        cold.buffers == hot.buffers,
        concerns(cold, request),
    ensures
        applied(cold, request).buffers == applied(hot, request).buffers,
{
}

/// Replaying the openings of a mirror into an empty one gives the mirror back: an
/// island that accepts the replay has every open buffer with its text.
pub proof fn law_replay_restores(
    island: IslandV,
    uris: Seq<Seq<char>>,
    buffers: Map<Seq<char>, (Seq<char>, Seq<char>)>,
)
    requires
        uris.to_set() == buffers.dom(),
        island.buffers == Map::<Seq<char>, (Seq<char>, Seq<char>)>::empty(),
    ensures
        all_applied(island, openings(uris, buffers)).buffers == buffers,
{
    lemma_openings(island, uris, buffers, uris.len() as int);
    let all = openings(uris, buffers);
    assert(all.take(uris.len() as int) =~= all);
    let after = all_applied(island, all).buffers;
    assert(uris.take(uris.len() as int) =~= uris);
    assert forall|uri: Seq<char>| after.contains_key(uri) == buffers.contains_key(uri) by {
        assert(buffers.dom().contains(uri) == uris.to_set().contains(uri));
    }
    assert(after =~= buffers);
}

/// The mirror behind a list of accepted requests.
pub open spec fn all_applied(island: IslandV, requests: Seq<PcRequestV>) -> IslandV
    decreases requests.len(),
{
    if requests.len() == 0 {
        island
    } else {
        applied(all_applied(island, requests.drop_last()), requests.last())
    }
}

proof fn lemma_openings(
    island: IslandV,
    uris: Seq<Seq<char>>,
    buffers: Map<Seq<char>, (Seq<char>, Seq<char>)>,
    n: int,
)
    requires
        0 <= n <= uris.len(),
        island.buffers == Map::<Seq<char>, (Seq<char>, Seq<char>)>::empty(),
    ensures
        forall|uri: Seq<char>|
            #![trigger all_applied(island, openings(uris, buffers).take(n)).buffers.contains_key(uri)]
            all_applied(island, openings(uris, buffers).take(n)).buffers.contains_key(uri)
                <==> uris.take(n).contains(uri),
        forall|uri: Seq<char>|
            #![trigger all_applied(island, openings(uris, buffers).take(n)).buffers[uri]]
            uris.take(n).contains(uri) ==> all_applied(
                island,
                openings(uris, buffers).take(n),
            ).buffers[uri] == buffers[uri],
    decreases n,
{
    let all = openings(uris, buffers);
    if n == 0 {
        assert(uris.take(0) =~= seq![]);
        assert(all.take(0) =~= seq![]);
    } else {
        lemma_openings(island, uris, buffers, n - 1);
        assert(all.take(n).drop_last() =~= all.take(n - 1));
        assert(all.take(n).last() == all[n - 1]);
        assert(uris.take(n) =~= uris.take(n - 1).push(uris[n - 1]));
        assert forall|uri: Seq<char>|
            uris.take(n).contains(uri) <==> uris.take(n - 1).contains(uri) || uri == uris[n - 1] by {
            if uris.take(n - 1).contains(uri) {
                let i = uris.take(n - 1).index_of(uri);
                assert(uris.take(n)[i] == uri);
            }
            if uris.take(n).contains(uri) {
                let i = uris.take(n).index_of(uri);
                if i < n - 1 {
                    assert(uris.take(n - 1)[i] == uri);
                }
            }
            assert(uris.take(n)[n - 1] == uris[n - 1]);
        }
    }
}

/// Two lists hold the same texts, in the same order.
pub open spec fn same_texts(a: Seq<String>, b: Seq<String>) -> bool {
    &&& a.len() == b.len()
    &&& forall|k: int| 0 <= k < a.len() ==> (#[trigger] a[k])@ == b[k]@
}

/// The report on plugins tells of each plugin what the compiler told, in order.
pub proof fn law_plugins_reported(report: PcPluginStatusReport, status: pc_abi::PluginStatus)
    requires
        reports(report, status),
    ensures
        report.compiler_plugins@.len() == status.compiler_plugins@.len(),
        forall|k: int|
            0 <= k < status.compiler_plugins@.len() ==> {
                let told = #[trigger] report.compiler_plugins@[k];
                &&& same_texts(told.jars@, status.compiler_plugins@[k].jars@)
                &&& same_texts(told.options@, status.compiler_plugins@[k].options@)
                &&& told.loaded == status.compiler_plugins@[k].loaded
                &&& told.detail == status.compiler_plugins@[k].detail
            },
        report.service_plugins@.len() == status.service_plugins@.len(),
        forall|k: int|
            0 <= k < status.service_plugins@.len() ==> {
                let told = #[trigger] report.service_plugins@[k];
                &&& told.id == status.service_plugins@[k].id
                &&& told.source == status.service_plugins@[k].source
                &&& told.enabled == status.service_plugins@[k].enabled
                &&& told.self_test_ok == status.service_plugins@[k].self_test_ok
                &&& told.self_test_detail == status.service_plugins@[k].self_test_detail
            },
        report.disabled@.len() == status.disabled@.len(),
        forall|k: int|
            0 <= k < status.disabled@.len() ==> {
                let told = #[trigger] report.disabled@[k];
                &&& told.id == status.disabled@[k].id
                &&& told.reason == status.disabled@[k].reason
            },
{
    assert forall|k: int| 0 <= k < status.compiler_plugins@.len() implies {
        let told = #[trigger] report.compiler_plugins@[k];
        &&& same_texts(told.jars@, status.compiler_plugins@[k].jars@)
        &&& same_texts(told.options@, status.compiler_plugins@[k].options@)
        &&& told.loaded == status.compiler_plugins@[k].loaded
        &&& told.detail == status.compiler_plugins@[k].detail
    } by {
        let told = report.compiler_plugins@[k];
        let given = status.compiler_plugins@[k];
        assert(shows_compiler_plugin(told, given));
        lemma_same_texts(told.jars@, given.jars@);
        lemma_same_texts(told.options@, given.options@);
    }
}

proof fn lemma_same_texts(a: Seq<String>, b: Seq<String>)
    requires
        text::texts(a) == text::texts(b),
    ensures
        same_texts(a, b),
{
    assert(text::texts(a).len() == a.len());
    assert(text::texts(b).len() == b.len());
    assert forall|k: int| 0 <= k < a.len() implies (#[trigger] a[k])@ == b[k]@ by {
        assert(text::texts(a)[k] == a[k]@);
        assert(text::texts(b)[k] == b[k]@);
    }
}

/// An option that makes the compiler write SemanticDB is dropped, with the value behind it where
/// it takes one, and every other option stays in front of what is left of the rest.
pub proof fn law_semanticdb_options(option: Seq<char>, value: Seq<char>, rest: Seq<Seq<char>>)
    ensures
        option == "-Xsemanticdb"@ || option == "-Ysemanticdb"@ ==> without_semanticdb(
            seq![option] + rest,
        ) == without_semanticdb(rest),
        option == "-semanticdb-target"@ || option == "-sourceroot"@ ==> without_semanticdb(
            seq![option, value] + rest,
        ) == without_semanticdb(rest),
        text::has_prefix(option, "-semanticdb-target:"@) || text::has_prefix(
            option,
            "-sourceroot:"@,
        ) ==> without_semanticdb(seq![option] + rest) == without_semanticdb(rest),
        option != "-Xsemanticdb"@ && option != "-Ysemanticdb"@ && option != "-semanticdb-target"@
            && option != "-sourceroot"@ && !text::has_prefix(option, "-semanticdb-target:"@)
            && !text::has_prefix(option, "-sourceroot:"@) ==> without_semanticdb(
            seq![option] + rest,
        ) == seq![option] + without_semanticdb(rest),
        without_semanticdb(Seq::<Seq<char>>::empty()).len() == 0,
{
    let one = seq![option] + rest;
    let two = seq![option, value] + rest;
    assert(one[0] == option && two[0] == option);
    assert(one.skip(1) =~= rest);
    assert(two.skip(2) =~= rest);
    reveal_strlit("-Xsemanticdb");
    reveal_strlit("-Ysemanticdb");
    reveal_strlit("-semanticdb-target");
    reveal_strlit("-sourceroot");
    reveal_strlit("-semanticdb-target:");
    reveal_strlit("-sourceroot:");
    assert("-Xsemanticdb"@[1] == 'X' && "-Ysemanticdb"@[1] == 'Y');
    assert("-semanticdb-target"@[1] == 's' && "-sourceroot"@[1] == 's');
    assert("-semanticdb-target"@.len() == 18 && "-semanticdb-target:"@.len() == 19);
    assert("-sourceroot"@.len() == 11 && "-sourceroot:"@.len() == 12);
    assert("-semanticdb-target"@[2] == 'e' && "-sourceroot:"@[2] == 'o');
    if text::has_prefix(option, "-sourceroot:"@) {
        assert(option.take(12)[2] == option[2]);
    }
}

/// The mirror follows what the island accepted: an opened buffer is held with its target and its
/// whole text, a changed one keeps its target and has the new text, a closed one is gone, and no
/// other buffer changes.
pub proof fn law_mirror_follows(
    island: IslandV,
    target: Seq<char>,
    uri: Seq<char>,
    text: Seq<char>,
    other: Seq<char>,
)
    requires
        other != uri,
    ensures
        ({
            let opened = applied(island, PcRequestV::DidOpen(target, uri, text)).buffers;
            let changed = applied(island, PcRequestV::DidChange(uri, text)).buffers;
            let closed = applied(island, PcRequestV::DidClose(uri)).buffers;
            &&& opened.contains_key(uri) && opened[uri] == (target, text)
            &&& island.buffers.contains_key(uri) ==> changed.contains_key(uri) && changed[uri]
                == (island.buffers[uri].0, text)
            &&& !island.buffers.contains_key(uri) ==> !changed.contains_key(uri)
            &&& !closed.contains_key(uri)
            &&& opened.contains_key(other) == island.buffers.contains_key(other)
            &&& changed.contains_key(other) == island.buffers.contains_key(other)
            &&& closed.contains_key(other) == island.buffers.contains_key(other)
            &&& island.buffers.contains_key(other) ==> opened[other] == island.buffers[other]
                && changed[other] == island.buffers[other] && closed[other]
                == island.buffers[other]
        }),
{
}

/// A buffer is opened for a registered target only and changed only while it is open; a running
/// island is told of it, one that is not running is told later, and a notification that does not
/// concern the island changes nothing.
pub proof fn law_notification_gated(
    before: IslandV,
    after: IslandV,
    target: Seq<char>,
    uri: Seq<char>,
    text: Seq<char>,
    forward: Forward,
)
    requires
        notified(before, after, PcRequestV::DidOpen(target, uri, text), forward) || notified(
            before,
            after,
            PcRequestV::DidChange(uri, text),
            forward,
        ) || notified(before, after, PcRequestV::DidClose(uri), forward),
    ensures
        forward is Ignored ==> after == before,
        forward is Send ==> before.booted && after == before,
        forward is Mirrored ==> !before.booted,
        notified(before, after, PcRequestV::DidOpen(target, uri, text), forward) ==> (
        forward is Ignored <==> forall|k: int|
            0 <= k < before.targets.len() ==> (#[trigger] before.targets[k]).bsp_id != target),
        notified(before, after, PcRequestV::DidChange(uri, text), forward) ==> (
        forward is Ignored <==> !before.buffers.contains_key(uri)),
        notified(before, after, PcRequestV::DidClose(uri), forward) ==> !(forward is Ignored),
{
}

/// A freshly booted island is told of every target, in order, and then of every open buffer once,
/// with its target and its whole text, in the order of the URIs, and of nothing else.
pub proof fn law_replay_tells_all(island: IslandV, requests: Seq<PcRequestV>)
    requires
        replays(island, requests),
    ensures
        requests.len() >= island.targets.len(),
        forall|k: int|
            0 <= k < island.targets.len() ==> #[trigger] requests[k]
                == PcRequestV::RegisterTarget(island.targets[k]),
        forall|k: int|
            island.targets.len() <= k < requests.len() ==> match #[trigger] requests[k] {
                PcRequestV::DidOpen(target, uri, text) => island.buffers.contains_key(uri)
                    && island.buffers[uri] == (target, text),
                _ => false,
            },
        forall|uri: Seq<char>| #[trigger]
            island.buffers.contains_key(uri) ==> requests.contains(
                PcRequestV::DidOpen(island.buffers[uri].0, uri, island.buffers[uri].1),
            ),
        forall|j: int, k: int|
            island.targets.len() <= j < k < requests.len() ==> order::before(
                opened_uri(#[trigger] requests[j]),
                opened_uri(#[trigger] requests[k]),
            ),
{
    let uris = choose|uris: Seq<Seq<char>>| #[trigger]
        order::strictly_sorted(uris) && uris.to_set() == island.buffers.dom() && requests
            == registrations(island.targets) + openings(uris, island.buffers);
    let n = island.targets.len() as int;
    let opened = openings(uris, island.buffers);
    assert(registrations(island.targets).len() == n);
    assert forall|k: int| n <= k < requests.len() implies match #[trigger] requests[k] {
        PcRequestV::DidOpen(target, uri, text) => island.buffers.contains_key(uri)
            && island.buffers[uri] == (target, text),
        _ => false,
    } by {
        assert(requests[k] == opened[k - n]);
        assert(uris.contains(uris[k - n]));
        assert(uris.to_set().contains(uris[k - n]));
    }
    assert forall|uri: Seq<char>| #[trigger]
        island.buffers.contains_key(uri) implies requests.contains(
        PcRequestV::DidOpen(island.buffers[uri].0, uri, island.buffers[uri].1),
    ) by {
        assert(uris.to_set().contains(uri));
        let k = uris.index_of(uri);
        assert(requests[n + k] == opened[k]);
    }
    assert forall|j: int, k: int| n <= j < k < requests.len() implies order::before(
        opened_uri(#[trigger] requests[j]),
        opened_uri(#[trigger] requests[k]),
    ) by {
        assert(requests[j] == opened[j - n] && requests[k] == opened[k - n]);
        assert(order::before(uris[j - n], uris[k - n]));
    }
}

/// The URI that a request opens.
pub open spec fn opened_uri(request: PcRequestV) -> Seq<char> {
    match request {
        PcRequestV::DidOpen(_, uri, _) => uri,
        _ => Seq::empty(),
    }
}

/// The first refusal is a refusal with nothing but other outcomes in front of it, and only the
/// island's own refusals count; without one the index is behind the last outcome.
pub proof fn law_first_refusal(outcomes: Seq<Outcome>)
    ensures
        0 <= first_refusal(outcomes) <= outcomes.len(),
        forall|k: int|
            0 <= k < first_refusal(outcomes) ==> !((#[trigger] outcomes[k]) is Backend),
        first_refusal(outcomes) < outcomes.len() ==> outcomes[first_refusal(outcomes)] is Backend,
    decreases outcomes.len(),
{
    if outcomes.len() > 0 && is_accepted(outcomes[0]) {
        let rest = outcomes.drop_first();
        law_first_refusal(rest);
        assert forall|k: int| 0 <= k < first_refusal(outcomes) implies !((
        #[trigger] outcomes[k]) is Backend) by {
            if k > 0 {
                assert(rest[k - 1] == outcomes[k]);
            }
        }
    }
}

/// The Java home of the settings: the configuration's, or else three directories above
/// `LS_LIBJVM`, or else `JAVA_HOME`.
pub proof fn law_home_precedence(
    config: Option<Seq<char>>,
    ls_libjvm: Option<Seq<char>>,
    java_home: Option<Seq<char>>,
)
    ensures
        config::entry(config, "javaHome"@) matches Some(home) ==> named_home(
            config,
            ls_libjvm,
            java_home,
        ) == Some(home),
        config::entry(config, "javaHome"@) is None && ls_libjvm is None ==> named_home(
            config,
            ls_libjvm,
            java_home,
        ) == java_home,
        config::entry(config, "javaHome"@) is None ==> (ls_libjvm matches Some(libjvm)
            ==> named_home(config, ls_libjvm, java_home) == (match paths::parent_of(libjvm) {
            Some(server) => match paths::parent_of(server) {
                Some(lib) => paths::parent_of(lib),
                None => None,
            },
            None => None,
        })),
{
    reveal_with_fuel(paths::ancestor_of, 4);
}

/// A Java home is taken as it is where its `release` file is there or nowhere, and as the home
/// inside of it where the file is there instead.
pub proof fn law_home_placed<F: Fn(&str) -> bool>(is_file: F, home: Seq<char>, found: Seq<char>)
    requires
        normal_home(is_file, home, found),
    ensures
        found == home || found == paths::joined_path(home, "lib/openjdk"@),
        !paths::says(is_file, paths::joined_path(home, "release"@), false) ==> found == home,
        !paths::says(is_file, paths::joined_path(home, "release"@), true) && !paths::says(
            is_file,
            paths::joined_path(paths::joined_path(home, "lib/openjdk"@), "release"@),
            false,
        ) ==> found == paths::joined_path(home, "lib/openjdk"@),
        !paths::says(
            is_file,
            paths::joined_path(paths::joined_path(home, "lib/openjdk"@), "release"@),
            true,
        ) ==> found == home,
{
}

/// A request may take two minutes, or twenty seconds where a fault is injected, which the JVM is
/// told of; a cold JVM has a minute to report, a cancelled request half a second to end, and
/// four wedged generations are left behind at most.
pub proof fn law_boot_limits(plan: BootPlan, test_fault: Option<&str>)
    requires
        plan.limits_follow(test_fault),
    ensures
        plan.rendezvous_timeout == 60,
        plan.max_abandoned_generations == 4,
        plan.cancel_grace == 500,
        test_fault matches Some(kind) && kind@.len() > 0 ==> plan.request_deadline == 20
            && plan.jvm_options@.len() == 1 && plan.jvm_options@[0]@ == "-Dls.pc.host.testFault="@
            + test_fault->Some_0@,
        !(test_fault matches Some(kind) && kind@.len() > 0) ==> plan.request_deadline == 120
            && plan.jvm_options@.len() == 0,
{
    let options = text::texts(plan.jvm_options@);
    assert(options.len() == plan.jvm_options@.len());
    if plan.jvm_options@.len() > 0 {
        assert(options[0] == plan.jvm_options@[0]@);
    }
}

} // verus!
