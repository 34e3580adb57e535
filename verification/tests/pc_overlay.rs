use ls_server::convert::Span;
use ls_server::documents::DocumentStore;
use ls_server::json::Json;
use ls_server::pc::{
    PcDefLocation, PcDefOrigin, PcDefinition, PcLocation, PcQueryService, PcSpan,
};
use ls_server::pc_abi::Pos;
use ls_server::pc_overlay::{token_span_at, top_level_decls, PcOverlay, Role};

/// A compiler with given buffers and given answers.
#[derive(Default)]
struct FakePc {
    open: Vec<String>,
    prepare: Option<PcSpan>,
    symbol: String,
    locations: Vec<(String, PcSpan, PcDefOrigin)>,
}

impl PcQueryService for FakePc {
    fn did_open(&self, _target_id: &str, _uri: &str, _text: &str) {}

    fn did_change(&self, _uri: &str, _text: &str) {}

    fn did_close(&self, _uri: &str) {}

    fn definition(&self, _uri: &str, _line: u32, _character: u32) -> Vec<PcLocation> {
        Vec::new()
    }

    fn type_definition(&self, _uri: &str, _line: u32, _character: u32) -> Vec<PcLocation> {
        Vec::new()
    }

    fn completion(&self, _uri: &str, _line: u32, _character: u32) -> Json {
        Json::Null
    }

    fn hover(&self, _uri: &str, _line: u32, _character: u32) -> Json {
        Json::Null
    }

    fn signature_help(&self, _uri: &str, _line: u32, _character: u32) -> Json {
        Json::Null
    }

    fn is_registered(&self, _target_id: &str) -> bool {
        true
    }

    fn resolve_completion_item(&self, _target_id: &str, _symbol: &str, item: &Json) -> Json {
        item.copy()
    }

    fn is_open(&self, uri: &str) -> bool {
        self.open.iter().any(|open| open == uri)
    }

    fn prepare_rename(&self, _uri: &str, _line: u32, _character: u32) -> Option<PcSpan> {
        self.prepare
    }

    fn definition_result(&self, _uri: &str, _line: u32, _character: u32) -> PcDefinition {
        PcDefinition {
            symbol: self.symbol.clone(),
            locations: self
                .locations
                .iter()
                .map(|(uri, span, origin)| PcDefLocation {
                    uri: uri.clone(),
                    span: *span,
                    origin: *origin,
                })
                .collect(),
        }
    }
}

fn pc_span(sl: u32, sc: u32, el: u32, ec: u32) -> PcSpan {
    PcSpan {
        start_line: sl,
        start_character: sc,
        end_line: el,
        end_character: ec,
    }
}

fn def_loc(uri: &str, span: PcSpan, origin: PcDefOrigin) -> (String, PcSpan, PcDefOrigin) {
    (uri.to_string(), span, origin)
}

type ToFile = fn(&str) -> Option<String>;
type Indexed = Box<dyn Fn(&str) -> bool>;

/// An overlay whose index has the given names and the same URIs as the files.
fn installed(indexed: Vec<&str>) -> PcOverlay<ToFile, Indexed> {
    let names: Vec<String> = indexed.into_iter().map(str::to_string).collect();
    let mut overlay: PcOverlay<ToFile, Indexed> = PcOverlay::new();
    overlay.handle().install(
        |sdb: &str| Some(sdb.to_string()),
        Box::new(move |name: &str| names.iter().any(|known| known == name)),
    );
    overlay
}

fn absent(_uri: &str) -> Option<String> {
    None
}

const URI: &str = "file:///ws/A.scala";

fn opened(text: &str) -> DocumentStore {
    let mut docs = DocumentStore::new();
    docs.open(URI, text);
    docs
}

fn holding() -> FakePc {
    FakePc {
        open: vec![URI.to_string()],
        ..FakePc::default()
    }
}

#[test]
fn uninstalled_overlay_is_never_dirty_and_answers_nothing() {
    let mut overlay: PcOverlay<ToFile, Indexed> = PcOverlay::new();
    let docs = opened("object A");
    assert!(!overlay.is_dirty(&docs, &absent, URI));
    assert_eq!(overlay.symbol_at(&docs, &holding(), URI, 0, 0), None);
    assert!(overlay.inner.pc_only_symbols(&docs, &absent, "").is_empty());
    assert!(overlay.occurrences_of("pkg/A.").is_none());
    assert!(!overlay.handle().is_installed());
}

#[test]
fn a_dirty_open_buffer_is_dirty_a_closed_one_is_not() {
    let docs = opened("object A");
    let mut overlay = installed(vec!["A"]);
    assert!(overlay.handle().is_installed());
    assert!(
        overlay.is_dirty(&docs, &absent, URI),
        "an absent-on-disk open buffer is dirty"
    );
    assert!(
        !overlay.is_dirty(&docs, &absent, "file:///ws/Other.scala"),
        "an unopened uri is never dirty"
    );
}

#[test]
fn pc_hit_reads_the_symbol_from_definition_and_span_from_prepare_rename() {
    let docs = opened("  foo.bar\n");
    let pc = FakePc {
        prepare: Some(pc_span(0, 6, 0, 9)),
        symbol: "pkg/Bar#bar().".to_string(),
        locations: vec![def_loc(
            "file:///ws/Bar.scala",
            pc_span(3, 6, 3, 9),
            PcDefOrigin::Workspace,
        )],
        ..holding()
    };
    let hit = installed(vec![])
        .symbol_at(&docs, &pc, URI, 0, 7)
        .expect("a PC hit");
    assert_eq!(hit.semantic_symbol, "pkg/Bar#bar().");
    assert_eq!(hit.span, Span::new(0, 6, 0, 9));
    assert_eq!(hit.role, Role::Reference);
    assert!(!hit.pc_only);
}

#[test]
fn pc_hit_is_a_definition_when_the_def_resolves_to_the_same_span_here() {
    let docs = opened("def foo = 1\n");
    let pc = FakePc {
        prepare: Some(pc_span(0, 4, 0, 7)),
        symbol: "pkg/A.foo().".to_string(),
        locations: vec![def_loc(URI, pc_span(0, 4, 0, 7), PcDefOrigin::Workspace)],
        ..holding()
    };
    let hit = installed(vec!["foo"])
        .symbol_at(&docs, &pc, URI, 0, 5)
        .expect("a PC hit");
    assert_eq!(hit.role, Role::Definition);
    assert!(!hit.pc_only);
}

#[test]
fn pc_hit_falls_back_to_the_buffer_token_span_when_prepare_rename_declines() {
    let docs = opened("val alpha = beta\n");
    let pc = FakePc {
        prepare: None,
        symbol: "pkg/A.beta.".to_string(),
        locations: vec![def_loc(
            "file:///ws/B.scala",
            pc_span(1, 0, 1, 4),
            PcDefOrigin::Workspace,
        )],
        ..holding()
    };
    let hit = installed(vec![])
        .symbol_at(&docs, &pc, URI, 0, 13)
        .expect("a token-span PC hit");
    assert_eq!(hit.span, Span::new(0, 12, 0, 16));
    assert_eq!(hit.semantic_symbol, "pkg/A.beta.");
}

#[test]
fn pc_only_when_every_definition_origin_is_non_workspace() {
    let docs = opened("given x = 1\n");
    let pc = FakePc {
        prepare: Some(pc_span(0, 6, 0, 7)),
        symbol: "synthetic/x.".to_string(),
        locations: vec![
            def_loc(
                "file:///ws/S.scala",
                pc_span(0, 0, 0, 1),
                PcDefOrigin::Synthetic,
            ),
            def_loc(
                "file:///ws/P.scala",
                pc_span(0, 0, 0, 1),
                PcDefOrigin::Plugin,
            ),
        ],
        ..holding()
    };
    let hit = installed(vec![])
        .symbol_at(&docs, &pc, URI, 0, 6)
        .expect("a PC hit");
    assert!(hit.pc_only, "all origins non-workspace => pc_only");
}

#[test]
fn an_empty_symbol_degrades_to_none() {
    let docs = opened("foo\n");
    let pc = FakePc {
        prepare: Some(pc_span(0, 0, 0, 3)),
        ..holding()
    };
    assert_eq!(
        installed(vec![]).symbol_at(&docs, &pc, URI, 0, 1),
        None,
        "empty symbol => degrade"
    );
}

#[test]
fn a_buffer_the_pc_does_not_hold_answers_nothing() {
    let docs = opened("foo\n");
    assert_eq!(
        installed(vec![]).symbol_at(&docs, &FakePc::default(), URI, 0, 1),
        None
    );
}

#[test]
fn a_top_level_declaration_the_index_has_not_seen_is_a_pc_only_hit() {
    let docs = opened("object Fresh:\n  def x = 1\n");
    let hit = installed(vec![])
        .symbol_at(&docs, &holding(), URI, 0, 9)
        .expect("a PC-only top-level hit");
    assert!(hit.pc_only);
    assert_eq!(hit.role, Role::Definition);
    assert_eq!(hit.span, Span::new(0, 7, 0, 12));
    assert_eq!(hit.semantic_symbol, "local/Fresh#");
}

#[test]
fn a_top_level_declaration_already_in_the_index_falls_through_to_the_pc_hit() {
    let docs = opened("object Known:\n");
    let pc = FakePc {
        prepare: Some(pc_span(0, 7, 0, 12)),
        symbol: "pkg/Known.".to_string(),
        locations: vec![def_loc(URI, pc_span(0, 7, 0, 12), PcDefOrigin::Workspace)],
        ..holding()
    };
    let hit = installed(vec!["Known"])
        .symbol_at(&docs, &pc, URI, 0, 9)
        .expect("the PC hit");
    assert!(!hit.pc_only);
    assert_eq!(hit.semantic_symbol, "pkg/Known.");
}

#[test]
fn pc_only_symbols_lists_unindexed_dirty_top_level_decls_matching_the_query() {
    let docs = opened("final case class Widget(x: Int)\nobject Known\n");
    let overlay = installed(vec!["Known"]);
    let hits = overlay.inner.pc_only_symbols(&docs, &absent, "wid");
    assert_eq!(hits.len(), 1);
    assert_eq!(hits[0].name, "Widget");
    assert_eq!(hits[0].keyword, "class");
    assert_eq!(hits[0].span, Span::new(0, 17, 0, 23));
    assert_eq!(hits[0].file_uri, URI);
    assert!(overlay.inner.pc_only_symbols(&docs, &absent, "zzz").is_empty());
    assert_eq!(overlay.inner.pc_only_symbols(&docs, &absent, "").len(), 1);
}

#[test]
fn a_query_is_matched_in_lower_case_beyond_ascii() {
    let docs = opened("object Known\n");
    let overlay = installed(vec![]);
    assert_eq!(overlay.inner.pc_only_symbols(&docs, &absent, "KNO").len(), 1);
    assert_eq!(overlay.inner.pc_only_symbols(&docs, &absent, "\u{212a}no").len(), 1);
}

#[test]
fn an_identifier_has_letters_beyond_ascii_and_ends_at_a_surrogate() {
    assert_eq!(token_span_at("é_$1 x", 0, 2), Some(Span::new(0, 0, 0, 4)));
    assert_eq!(token_span_at("ab\u{10400}cd", 0, 1), Some(Span::new(0, 0, 0, 2)));
    assert_eq!(token_span_at("ab", 1, 0), None);
}

#[test]
fn pc_only_symbols_ignores_clean_buffers() {
    let docs = opened("object Saved");
    let disk = |_: &str| Some("object Saved".to_string());
    assert!(
        installed(vec![])
            .inner
            .pc_only_symbols(&docs, &disk, "Saved")
            .is_empty(),
        "a clean buffer contributes no PC-only symbols"
    );
}

#[test]
fn top_level_decls_parses_column_zero_declarations_with_modifiers() {
    let text = "private final class Foo\n  def nested = 1\nobject Bar\ntype T = Int\nplain text\n";
    let decls = top_level_decls(text);
    let got: Vec<(&str, &str, u32, u32)> = decls
        .iter()
        .map(|d| {
            (
                d.keyword.as_str(),
                d.name.as_str(),
                d.span.start_char,
                d.span.end_char,
            )
        })
        .collect();
    assert_eq!(
        got,
        vec![
            ("class", "Foo", 20, 23),
            ("object", "Bar", 7, 10),
            ("type", "T", 5, 6),
        ],
        "indented members and non-declarations are skipped"
    );
}

#[test]
fn a_uri_that_names_no_file_is_clean_and_has_no_symbol() {
    let mut overlay: PcOverlay<ToFile, Indexed> = PcOverlay::new();
    overlay.handle().install(|_: &str| None, Box::new(|_: &str| false));
    let docs = opened("object A");
    assert!(!overlay.is_dirty(&docs, &absent, URI));
    assert_eq!(overlay.symbol_at(&docs, &holding(), URI, 0, 8), None);
}

#[test]
fn token_span_at_finds_the_identifier_under_the_cursor() {
    let source = "  val name = 1\n";
    assert_eq!(token_span_at(source, 0, 8), Some(Span::new(0, 6, 0, 10)));
    assert_eq!(token_span_at(source, 0, 12), None);
}

#[test]
fn an_installed_overlay_drives_symbol_at_cursor_over_a_dirty_buffer() {
    let mut overlay: PcOverlay<ToFile, Indexed> = PcOverlay::new();
    let docs = opened("object Fresh:\n  def x = 1\n");
    overlay.handle().install(
        |sdb: &str| Some(sdb.to_string()),
        Box::new(|_name: &str| false),
    );
    assert!(overlay.is_dirty(&docs, &absent, URI));
    let cursor = overlay
        .symbol_at(&docs, &holding(), URI, 0, 9)
        .expect("the dirty overlay answers the cursor");
    assert!(cursor.pc_only, "an unindexed top-level decl is PC-only");
    assert_eq!(cursor.role, Role::Definition);
    assert_eq!(cursor.span, Span::new(0, 7, 0, 12));
}

#[test]
fn a_compiler_without_queries_of_its_own_has_empty_answers() {
    let pc = holding();
    let at = Pos { line: 0, character: 0 };
    assert!(pc.booted());
    assert!(pc.registered_targets().is_empty());
    assert_eq!(pc.plugin_status(), None);
    assert!(pc.semantic_tokens(URI).is_empty());
    assert!(pc.selection_range(URI, &[at]).is_empty());
    assert!(pc.auto_imports(URI, at, "List", false).is_empty());
    assert!(pc.pc_diagnostics(URI).is_empty());
    assert!(pc.folding_range(URI).is_empty());
    let action = pc.code_action(URI, 1, at, None, None);
    assert!(action.edits.is_empty() && action.refusal.is_none());
}
