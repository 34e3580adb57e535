//! The report of `scala3SemanticLs.doctor`: fixed sections, as text and as JSON. It
//! can be made in every state of the server. What is not known is said to be
//! unavailable, and never left out. Making it boots nothing and changes nothing: the
//! application reads files and hands in what they hold.

use vstd::prelude::*;
use vstd::string::*;

use crate::capabilities;
use crate::json;
use crate::json::Json;
use crate::json::JsonV;
use crate::lines;
use crate::logging;
use crate::numerals;
use crate::paths;
use crate::pc;
use crate::pc_overlay;
use crate::text;

verus! {

/// How many items a list shows.
pub const LIST_CAP: usize = 20;

/// The build targets that the live sections speak of.
#[derive(Debug, Default, PartialEq, Eq)]
pub struct DoctorTargets {
    /// The name of the build server, if it gave one.
    pub server_name: Option<String>,
    /// The version of the build server, if it gave one.
    pub server_version: Option<String>,
    /// All Scala 3 targets, sorted.
    pub all_ids: Vec<String>,
    /// The targets without SemanticDB, sorted.
    pub unavailable_ids: Vec<String>,
    /// The other targets, sorted, each with the directory that contains
    /// `META-INF/semanticdb`.
    pub indexable_roots: Vec<(String, String)>,
}

/// A section, or why there is none.
#[derive(Debug, PartialEq, Eq)]
pub enum SectionState<T> {
    Available(T),
    Unavailable(String),
}

/// The host and the options of the embedded JVM.
#[derive(Debug, PartialEq, Eq)]
pub struct RuntimeSection {
    pub java: String,
    pub native_access_enabled_for: Vec<String>,
    pub compact_object_headers: String,
    pub aot_cache: String,
}

/// The flake and the lock file of the workspace.
#[derive(Debug, PartialEq, Eq)]
pub struct NixSection {
    pub flake_detected: bool,
    pub mill_ivy_fetcher_input: bool,
    pub ivy_lock_path: String,
    pub ivy_lock_exists: bool,
    pub lock_status: String,
}

/// The build server and its targets.
#[derive(Debug, PartialEq, Eq)]
pub struct BspSection {
    pub server_name: Option<String>,
    pub server_version: Option<String>,
    pub target_count: usize,
    pub scala3_targets: Vec<String>,
    pub index_unavailable_targets: Vec<String>,
}

/// The SemanticDB directory of a target.
#[derive(Debug, PartialEq, Eq)]
pub struct SemanticdbRoot {
    pub bsp_id: String,
    pub semanticdb_root: String,
    pub exists: bool,
    pub semanticdb_file_count: usize,
}

/// The SemanticDB of the workspace.
#[derive(Debug, PartialEq, Eq)]
pub struct SemanticdbSection {
    pub roots: Vec<SemanticdbRoot>,
    /// None while it is not computed.
    pub freshness: Option<Freshness>,
    pub generated_source_count: usize,
    pub stale_targets: Vec<String>,
}

/// How many documents are up to date.
#[derive(Debug, PartialEq, Eq)]
pub struct Freshness {
    pub fresh: usize,
    pub stale: usize,
    pub missing: usize,
    pub uris: Vec<String>,
}

/// The index on disk.
#[derive(Debug, PartialEq, Eq)]
pub struct StoreSection {
    pub status: String,
    pub facts: Vec<String>,
}

/// The presentation compiler.
#[derive(Debug, PartialEq, Eq)]
pub struct PcSection {
    pub worker_status: String,
    pub active_targets: Vec<String>,
    pub registered_targets: Vec<String>,
}

/// The plugins of the presentation compiler.
#[derive(Debug, PartialEq, Eq)]
pub struct PcPluginsSection;

/// The report.
#[derive(Debug, PartialEq, Eq)]
pub struct DoctorReport {
    pub runtime: RuntimeSection,
    pub nix: NixSection,
    pub bsp: SectionState<BspSection>,
    pub semanticdb: SectionState<SemanticdbSection>,
    pub store: StoreSection,
    pub pc: SectionState<PcSection>,
    pub pc_plugins: SectionState<PcPluginsSection>,
}

// Text.

/// The lines of a section, each indented.
pub open spec fn indented(lines: Seq<Seq<char>>) -> Seq<char>
    decreases lines.len(),
{
    if lines.len() == 0 {
        seq![]
    } else {
        indented(lines.drop_last()) + "  "@ + lines.last() + "\n"@
    }
}

/// The text of a section.
pub open spec fn section_text(name: Seq<char>, lines: Seq<Seq<char>>) -> Seq<char> {
    name + ":\n"@ + indented(lines)
}

/// The lines of a section that may be unavailable.
pub open spec fn state_lines<T>(
    state: SectionState<T>,
    lines: spec_fn(T) -> Seq<Seq<char>>,
) -> Seq<Seq<char>> {
    match state {
        SectionState::Available(value) => lines(value),
        SectionState::Unavailable(reason) => seq!["unavailable: "@ + reason@],
    }
}

/// "yes" or "no".
pub open spec fn yes_or_no(b: bool) -> Seq<char> {
    if b {
        "yes"@
    } else {
        "no"@
    }
}

/// A list, of which only so much is shown.
pub open spec fn capped_text(items: Seq<Seq<char>>) -> Seq<char> {
    if items.len() <= LIST_CAP {
        text::joined(items, ", "@)
    } else {
        text::joined(items.take(LIST_CAP as int), ", "@) + ", ... (+"@ + numerals::decimal(
            (items.len() - LIST_CAP) as nat,
        ) + " more)"@
    }
}

/// A list with its length, or a word for an empty one.
pub open spec fn list_text(items: Seq<Seq<char>>, empty: Seq<char>) -> Seq<char> {
    if items.len() == 0 {
        empty
    } else {
        numerals::decimal(items.len()) + " ("@ + capped_text(items) + ")"@
    }
}

/// The lines of the section on the host.
pub open spec fn runtime_text(r: RuntimeSection) -> Seq<Seq<char>> {
    seq![
        "Java: "@ + r.java@,
        "Native access: "@ + (if r.native_access_enabled_for@.len() == 0 {
            "not enabled for any module"@
        } else {
            "enabled for "@ + text::joined(text::texts(r.native_access_enabled_for@), ", "@)
        }),
        "Compact Object Headers: "@ + r.compact_object_headers@,
        "AOT cache: "@ + r.aot_cache@,
    ]
}

/// The lines of the section on Nix.
pub open spec fn nix_text(n: NixSection) -> Seq<Seq<char>> {
    seq![
        "flake detected: "@ + yes_or_no(n.flake_detected),
        "mill-ivy-fetcher input: "@ + yes_or_no(n.mill_ivy_fetcher_input),
        "ivy lock: "@ + n.ivy_lock_path@ + " ("@ + (if n.ivy_lock_exists {
            "exists"@
        } else {
            "missing"@
        }) + ")"@,
        "lock status: "@ + n.lock_status@,
    ]
}

/// The name of the build server.
pub open spec fn server_text(name: Option<String>, version: Option<String>) -> Seq<char> {
    match name {
        Some(name) => match version {
            Some(version) => name@ + " "@ + version@,
            None => name@,
        },
        None => match version {
            Some(version) => "unknown server "@ + version@,
            None => "unknown (initialize result not provided)"@,
        },
    }
}

/// Which targets lack SemanticDB. That is an error: the index needs it.
pub open spec fn coverage_text(lacking: Seq<Seq<char>>) -> Seq<char> {
    if lacking.len() == 0 {
        "SemanticDB coverage: all targets emit SemanticDB"@
    } else {
        "SemanticDB coverage: ERROR - "@ + numerals::decimal(lacking.len())
            + " target(s) without SemanticDB (recompile with -Xsemanticdb): "@ + text::joined(
            lacking,
            ", "@,
        )
    }
}

/// The lines of the section on the build server.
pub open spec fn bsp_text(b: BspSection) -> Seq<Seq<char>> {
    seq![
        "server: "@ + server_text(b.server_name, b.server_version),
        "targets: "@ + numerals::decimal(b.target_count as nat),
        "Scala 3 targets: "@ + list_text(text::texts(b.scala3_targets@), "0"@),
        coverage_text(text::texts(b.index_unavailable_targets@)),
    ]
}

/// The line of a SemanticDB directory.
pub open spec fn root_text(root: SemanticdbRoot) -> Seq<char> {
    "  "@ + root.bsp_id@ + ": "@ + root.semanticdb_root@ + " ("@ + (if root.exists {
        "exists, "@ + numerals::decimal(root.semanticdb_file_count as nat) + " semanticdb files"@
    } else {
        "missing"@
    }) + ")"@
}

/// The lines of the SemanticDB directories.
pub open spec fn roots_text(roots: Seq<SemanticdbRoot>) -> Seq<Seq<char>> {
    roots.map_values(|root: SemanticdbRoot| root_text(root))
}

/// The lines on how many documents are up to date.
pub open spec fn freshness_text(freshness: Option<Freshness>) -> Seq<Seq<char>> {
    match freshness {
        None => seq!["doc freshness: unavailable: not computed yet"@],
        Some(f) => {
            let counts = seq![
                "fresh docs: "@ + numerals::decimal(f.fresh as nat),
                "stale docs (md5 mismatch): "@ + numerals::decimal(f.stale as nat),
                "missing docs: "@ + numerals::decimal(f.missing as nat),
            ];
            if f.uris@.len() == 0 {
                counts
            } else {
                counts.push(
                    "stale/missing uris: "@ + text::joined(text::texts(f.uris@), ", "@),
                )
            }
        },
    }
}

/// The lines of the section on SemanticDB.
pub open spec fn semanticdb_text(s: SemanticdbSection) -> Seq<Seq<char>> {
    seq!["semanticdb roots: "@ + numerals::decimal(s.roots@.len())] + roots_text(s.roots@)
        + freshness_text(s.freshness) + seq![
        "generated source status: "@ + numerals::decimal(s.generated_source_count as nat),
        "stale targets: "@ + list_text(text::texts(s.stale_targets@), "none"@),
    ]
}

/// The lines of the section on the presentation compiler.
pub open spec fn pc_text(p: PcSection) -> Seq<Seq<char>> {
    seq![
        "worker status: "@ + p.worker_status@,
        "active targets: "@ + list_text(text::texts(p.active_targets@), "none"@),
        "registered targets: "@ + list_text(text::texts(p.registered_targets@), "none"@),
    ]
}

/// The text of the report: its sections in fixed order, with an empty line between
/// them.
pub open spec fn report_text(report: DoctorReport) -> Seq<char> {
    text::joined(
        seq![
            section_text("Runtime"@, runtime_text(report.runtime)),
            section_text("Nix"@, nix_text(report.nix)),
            section_text("BSP"@, state_lines(report.bsp, |b: BspSection| bsp_text(b))),
            section_text(
                "SemanticDB"@,
                state_lines(report.semanticdb, |s: SemanticdbSection| semanticdb_text(s)),
            ),
            section_text("Store"@, text::texts(report.store.facts@)),
            section_text("PC"@, state_lines(report.pc, |p: PcSection| pc_text(p))),
            section_text(
                "PC Plugins"@,
                state_lines(report.pc_plugins, |p: PcPluginsSection| seq![]),
            ),
        ],
        "\n"@,
    )
}

fn number_text(n: usize) -> (s: String)
    ensures
        s@ == numerals::decimal(n as nat),
{
    numerals::numeral(n as u64)
}

fn section(name: &str, lines: &Vec<String>) -> (s: String)
    ensures
        s@ == section_text(name@, text::texts(lines@)),
{
    let mut s = text::with(name.to_owned(), ":\n");
    let ghost head = s@;
    let ghost all = text::texts(lines@);
    let mut i: usize = 0;
    assert(all.take(0) =~= seq![]);
    assert(head + indented(all.take(0)) =~= head);
    while i < lines.len()
        invariant
            i <= lines@.len(),
            all == text::texts(lines@),
            s@ == head + indented(all.take(i as int)),
        decreases lines.len() - i,
    {
        let ghost before = indented(all.take(i as int));
        s = text::with(s, "  ");
        s = text::with(s, lines[i].as_str());
        s = text::with(s, "\n");
        assert(all.take(i + 1).drop_last() =~= all.take(i as int));
        assert(all.take(i + 1).last() == lines@[i as int]@);
        assert(head + before + "  "@ + lines@[i as int]@ + "\n"@ =~= head + (before + "  "@
            + lines@[i as int]@ + "\n"@));
        i += 1;
    }
    assert(all.take(i as int) =~= all);
    s
}

fn unavailable(reason: &str) -> (lines: Vec<String>)
    ensures
        text::texts(lines@) == seq!["unavailable: "@ + reason@],
{
    let line = text::with("unavailable: ".to_owned(), reason);
    let ghost t = line@;
    let lines = vec![line];
    assert(text::texts(lines@) =~= seq![t]);
    lines
}

fn yes_no(b: bool) -> (s: &'static str)
    ensures
        s@ == yes_or_no(b),
{
    if b {
        "yes"
    } else {
        "no"
    }
}

fn capped(items: &Vec<String>) -> (s: String)
    ensures
        s@ == capped_text(text::texts(items@)),
{
    if items.len() <= LIST_CAP {
        return text::join(items.as_slice(), ", ");
    }
    let shown = vstd::slice::slice_subrange(items.as_slice(), 0, LIST_CAP);
    assert(text::texts(shown@) =~= text::texts(items@).take(LIST_CAP as int));
    let s = text::with(text::join(shown, ", "), ", ... (+");
    let s = text::with(s, number_text(items.len() - LIST_CAP).as_str());
    text::with(s, " more)")
}

fn list_or(items: &Vec<String>, empty: &str) -> (s: String)
    ensures
        s@ == list_text(text::texts(items@), empty@),
{
    if items.len() == 0 {
        return empty.to_owned();
    }
    let s = text::with(number_text(items.len()), " (");
    let s = text::with(s, capped(items).as_str());
    text::with(s, ")")
}

fn runtime_lines(r: &RuntimeSection) -> (lines: Vec<String>)
    ensures
        text::texts(lines@) == runtime_text(*r),
{
    let native_access = if r.native_access_enabled_for.len() == 0 {
        "not enabled for any module".to_owned()
    } else {
        text::with(
            "enabled for ".to_owned(),
            text::join(r.native_access_enabled_for.as_slice(), ", ").as_str(),
        )
    };
    let lines = vec![
        text::with("Java: ".to_owned(), r.java.as_str()),
        text::with("Native access: ".to_owned(), native_access.as_str()),
        text::with("Compact Object Headers: ".to_owned(), r.compact_object_headers.as_str()),
        text::with("AOT cache: ".to_owned(), r.aot_cache.as_str()),
    ];
    assert(text::texts(lines@) =~= runtime_text(*r));
    lines
}

fn nix_lines(n: &NixSection) -> (lines: Vec<String>)
    ensures
        text::texts(lines@) == nix_text(*n),
{
    let lock = text::with("ivy lock: ".to_owned(), n.ivy_lock_path.as_str());
    let lock = text::with(lock, " (");
    let lock = text::with(
        lock,
        if n.ivy_lock_exists {
            "exists"
        } else {
            "missing"
        },
    );
    let lock = text::with(lock, ")");
    let lines = vec![
        text::with("flake detected: ".to_owned(), yes_no(n.flake_detected)),
        text::with("mill-ivy-fetcher input: ".to_owned(), yes_no(n.mill_ivy_fetcher_input)),
        lock,
        text::with("lock status: ".to_owned(), n.lock_status.as_str()),
    ];
    assert(text::texts(lines@) =~= nix_text(*n));
    lines
}

fn server_line(name: &Option<String>, version: &Option<String>) -> (s: String)
    ensures
        s@ == server_text(*name, *version),
{
    match name {
        Some(name) => match version {
            Some(version) => text::with(text::with(name.clone(), " "), version.as_str()),
            None => name.clone(),
        },
        None => match version {
            Some(version) => text::with("unknown server ".to_owned(), version.as_str()),
            None => "unknown (initialize result not provided)".to_owned(),
        },
    }
}

fn coverage(lacking: &Vec<String>) -> (s: String)
    ensures
        s@ == coverage_text(text::texts(lacking@)),
{
    if lacking.len() == 0 {
        return "SemanticDB coverage: all targets emit SemanticDB".to_owned();
    }
    let s = text::with(
        "SemanticDB coverage: ERROR - ".to_owned(),
        number_text(lacking.len()).as_str(),
    );
    let s = text::with(s, " target(s) without SemanticDB (recompile with -Xsemanticdb): ");
    text::with(s, text::join(lacking.as_slice(), ", ").as_str())
}

fn bsp_lines(b: &BspSection) -> (lines: Vec<String>)
    ensures
        text::texts(lines@) == bsp_text(*b),
{
    let lines = vec![
        text::with(
            "server: ".to_owned(),
            server_line(&b.server_name, &b.server_version).as_str(),
        ),
        text::with("targets: ".to_owned(), number_text(b.target_count).as_str()),
        text::with("Scala 3 targets: ".to_owned(), list_or(&b.scala3_targets, "0").as_str()),
        coverage(&b.index_unavailable_targets),
    ];
    assert(text::texts(lines@) =~= bsp_text(*b));
    lines
}

fn root_line(root: &SemanticdbRoot) -> (s: String)
    ensures
        s@ == root_text(*root),
{
    let status = if root.exists {
        text::with(
            text::with("exists, ".to_owned(), number_text(root.semanticdb_file_count).as_str()),
            " semanticdb files",
        )
    } else {
        "missing".to_owned()
    };
    let s = text::with("  ".to_owned(), root.bsp_id.as_str());
    let s = text::with(s, ": ");
    let s = text::with(s, root.semanticdb_root.as_str());
    let s = text::with(s, " (");
    let s = text::with(s, status.as_str());
    text::with(s, ")")
}

/// Puts a line behind others.
fn add_line(lines: &mut Vec<String>, line: String)
    ensures
        text::texts(final(lines)@) == text::texts(old(lines)@).push(line@),
{
    let ghost before = text::texts(lines@);
    let ghost t = line@;
    lines.push(line);
    assert(text::texts(lines@) =~= before.push(t));
}

fn semanticdb_lines(s: &SemanticdbSection) -> (lines: Vec<String>)
    ensures
        text::texts(lines@) == semanticdb_text(*s),
{
    let mut lines: Vec<String> = Vec::new();
    assert(text::texts(lines@) =~= seq![]);
    add_line(
        &mut lines,
        text::with("semanticdb roots: ".to_owned(), number_text(s.roots.len()).as_str()),
    );
    let ghost head = text::texts(lines@);
    let ghost roots = roots_text(s.roots@);
    let mut i: usize = 0;
    assert(head + roots.take(0) =~= head);
    while i < s.roots.len()
        invariant
            i <= s.roots@.len(),
            roots == roots_text(s.roots@),
            text::texts(lines@) == head + roots.take(i as int),
        decreases s.roots.len() - i,
    {
        add_line(&mut lines, root_line(&s.roots[i]));
        assert(head + roots.take(i + 1) =~= (head + roots.take(i as int)).push(roots[i as int]));
        i += 1;
    }
    assert(roots.take(i as int) =~= roots);
    let ghost before = text::texts(lines@);
    match &s.freshness {
        None => {
            add_line(&mut lines, "doc freshness: unavailable: not computed yet".to_owned());
        },
        Some(f) => {
            add_line(
                &mut lines,
                text::with("fresh docs: ".to_owned(), number_text(f.fresh).as_str()),
            );
            add_line(
                &mut lines,
                text::with(
                    "stale docs (md5 mismatch): ".to_owned(),
                    number_text(f.stale).as_str(),
                ),
            );
            add_line(
                &mut lines,
                text::with("missing docs: ".to_owned(), number_text(f.missing).as_str()),
            );
            if f.uris.len() > 0 {
                add_line(
                    &mut lines,
                    text::with(
                        "stale/missing uris: ".to_owned(),
                        text::join(f.uris.as_slice(), ", ").as_str(),
                    ),
                );
            }
        },
    }
    assert(text::texts(lines@) =~= before + freshness_text(s.freshness));
    add_line(
        &mut lines,
        text::with(
            "generated source status: ".to_owned(),
            number_text(s.generated_source_count).as_str(),
        ),
    );
    add_line(
        &mut lines,
        text::with("stale targets: ".to_owned(), list_or(&s.stale_targets, "none").as_str()),
    );
    assert(text::texts(lines@) =~= semanticdb_text(*s));
    lines
}

fn pc_lines(p: &PcSection) -> (lines: Vec<String>)
    ensures
        text::texts(lines@) == pc_text(*p),
{
    let lines = vec![
        text::with("worker status: ".to_owned(), p.worker_status.as_str()),
        text::with("active targets: ".to_owned(), list_or(&p.active_targets, "none").as_str()),
        text::with(
            "registered targets: ".to_owned(),
            list_or(&p.registered_targets, "none").as_str(),
        ),
    ];
    assert(text::texts(lines@) =~= pc_text(*p));
    lines
}

impl DoctorReport {
    /// The text of the report.
    pub fn render_text(&self) -> (s: String)
        ensures
            s@ == report_text(*self),
    {
        let runtime = section("Runtime", &runtime_lines(&self.runtime));
        let nix = section("Nix", &nix_lines(&self.nix));
        let bsp_facts = match &self.bsp {
            SectionState::Available(b) => bsp_lines(b),
            SectionState::Unavailable(reason) => unavailable(reason.as_str()),
        };
        let semanticdb_facts = match &self.semanticdb {
            SectionState::Available(s) => semanticdb_lines(s),
            SectionState::Unavailable(reason) => unavailable(reason.as_str()),
        };
        let pc_facts = match &self.pc {
            SectionState::Available(p) => pc_lines(p),
            SectionState::Unavailable(reason) => unavailable(reason.as_str()),
        };
        let plugin_facts = match &self.pc_plugins {
            SectionState::Available(_) => {
                let none: Vec<String> = Vec::new();
                assert(text::texts(none@) =~= seq![]);
                none
            },
            SectionState::Unavailable(reason) => unavailable(reason.as_str()),
        };
        let sections = vec![
            runtime,
            nix,
            section("BSP", &bsp_facts),
            section("SemanticDB", &semanticdb_facts),
            section("Store", &self.store.facts),
            section("PC", &pc_facts),
            section("PC Plugins", &plugin_facts),
        ];
        assert(text::texts(sections@) =~= seq![
            section_text("Runtime"@, runtime_text(self.runtime)),
            section_text("Nix"@, nix_text(self.nix)),
            section_text("BSP"@, state_lines(self.bsp, |b: BspSection| bsp_text(b))),
            section_text(
                "SemanticDB"@,
                state_lines(self.semanticdb, |s: SemanticdbSection| semanticdb_text(s)),
            ),
            section_text("Store"@, text::texts(self.store.facts@)),
            section_text("PC"@, state_lines(self.pc, |p: PcSection| pc_text(p))),
            section_text(
                "PC Plugins"@,
                state_lines(self.pc_plugins, |p: PcPluginsSection| seq![]),
            ),
        ]);
        text::join(sections.as_slice(), "\n")
    }
}

// JSON.

/// The JSON of a section that may be unavailable.
pub open spec fn state_json<T>(state: SectionState<T>, value: spec_fn(T) -> JsonV) -> JsonV {
    match state {
        SectionState::Available(section) => value(section),
        SectionState::Unavailable(reason) => JsonV::Object(
            seq![("unavailable"@, JsonV::Str(reason@))],
        ),
    }
}

/// The JSON of a text, null where there is none.
pub open spec fn optional_json(value: Option<String>) -> JsonV {
    match value {
        Some(s) => JsonV::Str(s@),
        None => JsonV::Null,
    }
}

/// The JSON of a list of texts.
pub open spec fn list_json(list: Seq<String>) -> JsonV {
    json::strings_view(text::texts(list))
}

/// The JSON of the section on the host.
pub open spec fn runtime_json(r: RuntimeSection) -> JsonV {
    JsonV::Object(
        seq![
            ("java"@, JsonV::Str(r.java@)),
            ("nativeAccessEnabledFor"@, list_json(r.native_access_enabled_for@)),
            ("compactObjectHeaders"@, JsonV::Str(r.compact_object_headers@)),
            ("aotCache"@, JsonV::Str(r.aot_cache@)),
        ],
    )
}

/// The JSON of the section on Nix.
pub open spec fn nix_json(n: NixSection) -> JsonV {
    JsonV::Object(
        seq![
            ("flakeDetected"@, JsonV::Bool(n.flake_detected)),
            ("millIvyFetcherInput"@, JsonV::Bool(n.mill_ivy_fetcher_input)),
            ("ivyLockPath"@, JsonV::Str(n.ivy_lock_path@)),
            ("ivyLockExists"@, JsonV::Bool(n.ivy_lock_exists)),
            ("lockStatus"@, JsonV::Str(n.lock_status@)),
        ],
    )
}

/// The JSON of the section on the build server.
pub open spec fn bsp_json(b: BspSection) -> JsonV {
    JsonV::Object(
        seq![
            ("serverName"@, optional_json(b.server_name)),
            ("serverVersion"@, optional_json(b.server_version)),
            ("targetCount"@, json::int_view(b.target_count as int)),
            ("scala3Targets"@, list_json(b.scala3_targets@)),
            ("indexUnavailableTargets"@, list_json(b.index_unavailable_targets@)),
        ],
    )
}

/// The JSON of a SemanticDB directory.
pub open spec fn root_json(root: SemanticdbRoot) -> JsonV {
    JsonV::Object(
        seq![
            ("bspId"@, JsonV::Str(root.bsp_id@)),
            ("semanticdbRoot"@, JsonV::Str(root.semanticdb_root@)),
            ("exists"@, JsonV::Bool(root.exists)),
            ("semanticdbFileCount"@, json::int_view(root.semanticdb_file_count as int)),
        ],
    )
}

/// The JSON of how many documents are up to date, null while it is not computed.
pub open spec fn freshness_json(freshness: Option<Freshness>) -> JsonV {
    match freshness {
        None => JsonV::Null,
        Some(f) => JsonV::Object(
            seq![
                ("fresh"@, json::int_view(f.fresh as int)),
                ("stale"@, json::int_view(f.stale as int)),
                ("missing"@, json::int_view(f.missing as int)),
                ("uris"@, list_json(f.uris@)),
            ],
        ),
    }
}

/// The JSON of the section on SemanticDB.
pub open spec fn semanticdb_json(s: SemanticdbSection) -> JsonV {
    JsonV::Object(
        seq![
            (
                "roots"@,
                JsonV::Array(s.roots@.map_values(|root: SemanticdbRoot| root_json(root))),
            ),
            ("freshness"@, freshness_json(s.freshness)),
            ("generatedSourceCount"@, json::int_view(s.generated_source_count as int)),
            ("staleTargets"@, list_json(s.stale_targets@)),
        ],
    )
}

/// The JSON of the section on the index.
pub open spec fn store_json(s: StoreSection) -> JsonV {
    JsonV::Object(seq![("status"@, JsonV::Str(s.status@)), ("facts"@, list_json(s.facts@))])
}

/// The JSON of the section on the presentation compiler.
pub open spec fn pc_json(p: PcSection) -> JsonV {
    JsonV::Object(
        seq![
            ("workerStatus"@, JsonV::Str(p.worker_status@)),
            ("activeTargets"@, list_json(p.active_targets@)),
            ("registeredTargets"@, list_json(p.registered_targets@)),
        ],
    )
}

/// The JSON of the report.
pub open spec fn report_json(report: DoctorReport) -> JsonV {
    JsonV::Object(
        seq![
            ("runtime"@, runtime_json(report.runtime)),
            ("nix"@, nix_json(report.nix)),
            ("bsp"@, state_json(report.bsp, |b: BspSection| bsp_json(b))),
            (
                "semanticdb"@,
                state_json(report.semanticdb, |s: SemanticdbSection| semanticdb_json(s)),
            ),
            ("store"@, store_json(report.store)),
            ("pc"@, state_json(report.pc, |p: PcSection| pc_json(p))),
            (
                "pcPlugins"@,
                state_json(report.pc_plugins, |p: PcPluginsSection| JsonV::Object(seq![])),
            ),
        ],
    )
}

fn optional_value(value: &Option<String>) -> (json: Json)
    ensures
        json@ == optional_json(*value),
{
    match value {
        Some(s) => json::string(s.as_str()),
        None => Json::Null,
    }
}

fn unavailable_value(reason: &str) -> (value: Json)
    ensures
        value@ == JsonV::Object(seq![("unavailable"@, JsonV::Str(reason@))]),
{
    json::single("unavailable", json::string(reason))
}

impl RuntimeSection {
    /// The JSON of the section.
    pub fn to_json(&self) -> (value: Json)
        ensures
            value@ == runtime_json(*self),
    {
        let mut m: Vec<(String, Json)> = Vec::new();
        assert(json::member_views(m@) =~= seq![]);
        json::put(&mut m, "java", json::string(self.java.as_str()));
        json::put(
            &mut m,
            "nativeAccessEnabledFor",
            json::strings(self.native_access_enabled_for.as_slice()),
        );
        json::put(
            &mut m,
            "compactObjectHeaders",
            json::string(self.compact_object_headers.as_str()),
        );
        json::put(&mut m, "aotCache", json::string(self.aot_cache.as_str()));
        assert(json::member_views(m@) =~= runtime_json(*self)->Object_0);
        json::object(m)
    }
}

impl NixSection {
    /// The JSON of the section.
    pub fn to_json(&self) -> (value: Json)
        ensures
            value@ == nix_json(*self),
    {
        let mut m: Vec<(String, Json)> = Vec::new();
        assert(json::member_views(m@) =~= seq![]);
        json::put(&mut m, "flakeDetected", Json::Bool(self.flake_detected));
        json::put(&mut m, "millIvyFetcherInput", Json::Bool(self.mill_ivy_fetcher_input));
        json::put(&mut m, "ivyLockPath", json::string(self.ivy_lock_path.as_str()));
        json::put(&mut m, "ivyLockExists", Json::Bool(self.ivy_lock_exists));
        json::put(&mut m, "lockStatus", json::string(self.lock_status.as_str()));
        assert(json::member_views(m@) =~= nix_json(*self)->Object_0);
        json::object(m)
    }
}

impl BspSection {
    /// The JSON of the section.
    pub fn to_json(&self) -> (value: Json)
        ensures
            value@ == bsp_json(*self),
    {
        let mut m: Vec<(String, Json)> = Vec::new();
        assert(json::member_views(m@) =~= seq![]);
        json::put(&mut m, "serverName", optional_value(&self.server_name));
        json::put(&mut m, "serverVersion", optional_value(&self.server_version));
        json::put(&mut m, "targetCount", json::natural(self.target_count as u64));
        json::put(&mut m, "scala3Targets", json::strings(self.scala3_targets.as_slice()));
        json::put(
            &mut m,
            "indexUnavailableTargets",
            json::strings(self.index_unavailable_targets.as_slice()),
        );
        assert(json::member_views(m@) =~= bsp_json(*self)->Object_0);
        json::object(m)
    }
}

impl SemanticdbRoot {
    /// The JSON of the directory.
    pub fn to_json(&self) -> (value: Json)
        ensures
            value@ == root_json(*self),
    {
        let mut m: Vec<(String, Json)> = Vec::new();
        assert(json::member_views(m@) =~= seq![]);
        json::put(&mut m, "bspId", json::string(self.bsp_id.as_str()));
        json::put(&mut m, "semanticdbRoot", json::string(self.semanticdb_root.as_str()));
        json::put(&mut m, "exists", Json::Bool(self.exists));
        json::put(
            &mut m,
            "semanticdbFileCount",
            json::natural(self.semanticdb_file_count as u64),
        );
        assert(json::member_views(m@) =~= root_json(*self)->Object_0);
        json::object(m)
    }
}

impl Freshness {
    /// The JSON of the counts.
    pub fn to_json(&self) -> (value: Json)
        ensures
            value@ == freshness_json(Some(*self)),
    {
        let mut m: Vec<(String, Json)> = Vec::new();
        assert(json::member_views(m@) =~= seq![]);
        json::put(&mut m, "fresh", json::natural(self.fresh as u64));
        json::put(&mut m, "stale", json::natural(self.stale as u64));
        json::put(&mut m, "missing", json::natural(self.missing as u64));
        json::put(&mut m, "uris", json::strings(self.uris.as_slice()));
        assert(json::member_views(m@) =~= freshness_json(Some(*self))->Object_0);
        json::object(m)
    }
}

impl SemanticdbSection {
    /// The JSON of the section.
    pub fn to_json(&self) -> (value: Json)
        ensures
            value@ == semanticdb_json(*self),
    {
        let ghost all = self.roots@.map_values(|root: SemanticdbRoot| root_json(root));
        let mut roots: Vec<Json> = Vec::new();
        let mut i: usize = 0;
        assert(json::views(roots@) =~= all.take(0));
        while i < self.roots.len()
            invariant
                i <= self.roots@.len(),
                all == self.roots@.map_values(|root: SemanticdbRoot| root_json(root)),
                json::views(roots@) == all.take(i as int),
            decreases self.roots.len() - i,
        {
            json::push(&mut roots, self.roots[i].to_json());
            i += 1;
            assert(all.take(i as int) =~= all.take(i - 1).push(all[i - 1]));
        }
        assert(all.take(i as int) =~= all);
        let freshness = match &self.freshness {
            Some(f) => f.to_json(),
            None => Json::Null,
        };
        let mut m: Vec<(String, Json)> = Vec::new();
        assert(json::member_views(m@) =~= seq![]);
        json::put(&mut m, "roots", json::array(roots));
        json::put(&mut m, "freshness", freshness);
        json::put(
            &mut m,
            "generatedSourceCount",
            json::natural(self.generated_source_count as u64),
        );
        json::put(&mut m, "staleTargets", json::strings(self.stale_targets.as_slice()));
        assert(json::member_views(m@) =~= semanticdb_json(*self)->Object_0);
        json::object(m)
    }
}

impl StoreSection {
    /// The JSON of the section.
    pub fn to_json(&self) -> (value: Json)
        ensures
            value@ == store_json(*self),
    {
        json::pair(
            "status",
            json::string(self.status.as_str()),
            "facts",
            json::strings(self.facts.as_slice()),
        )
    }
}

impl PcSection {
    /// The JSON of the section.
    pub fn to_json(&self) -> (value: Json)
        ensures
            value@ == pc_json(*self),
    {
        let mut m: Vec<(String, Json)> = Vec::new();
        assert(json::member_views(m@) =~= seq![]);
        json::put(&mut m, "workerStatus", json::string(self.worker_status.as_str()));
        json::put(&mut m, "activeTargets", json::strings(self.active_targets.as_slice()));
        json::put(&mut m, "registeredTargets", json::strings(self.registered_targets.as_slice()));
        assert(json::member_views(m@) =~= pc_json(*self)->Object_0);
        json::object(m)
    }
}

impl DoctorReport {
    /// The JSON of the report.
    pub fn render_json(&self) -> (value: Json)
        ensures
            value@ == report_json(*self),
    {
        let bsp = match &self.bsp {
            SectionState::Available(b) => b.to_json(),
            SectionState::Unavailable(reason) => unavailable_value(reason.as_str()),
        };
        let semanticdb = match &self.semanticdb {
            SectionState::Available(s) => s.to_json(),
            SectionState::Unavailable(reason) => unavailable_value(reason.as_str()),
        };
        let pc = match &self.pc {
            SectionState::Available(p) => p.to_json(),
            SectionState::Unavailable(reason) => unavailable_value(reason.as_str()),
        };
        let plugins = match &self.pc_plugins {
            SectionState::Available(_) => {
                let none: Vec<(String, Json)> = Vec::new();
                assert(json::member_views(none@) =~= seq![]);
                json::object(none)
            },
            SectionState::Unavailable(reason) => unavailable_value(reason.as_str()),
        };
        let mut m: Vec<(String, Json)> = Vec::new();
        assert(json::member_views(m@) =~= seq![]);
        json::put(&mut m, "runtime", self.runtime.to_json());
        json::put(&mut m, "nix", self.nix.to_json());
        json::put(&mut m, "bsp", bsp);
        json::put(&mut m, "semanticdb", semanticdb);
        json::put(&mut m, "store", self.store.to_json());
        json::put(&mut m, "pc", pc);
        json::put(&mut m, "pcPlugins", plugins);
        assert(json::member_views(m@) =~= report_json(*self)->Object_0);
        json::object(m)
    }
}

// Gathering.

/// A text without the quotation marks in front.
pub open spec fn unquoted_start(s: Seq<char>) -> Seq<char>
    decreases s.len(),
{
    if s.len() > 0 && s[0] == '"' {
        unquoted_start(s.drop_first())
    } else {
        s
    }
}

/// A text without the quotation marks at the end.
pub open spec fn unquoted_end(s: Seq<char>) -> Seq<char>
    decreases s.len(),
{
    if s.len() > 0 && s.last() == '"' {
        unquoted_end(s.drop_last())
    } else {
        s
    }
}

/// The version in the first line that gives one.
pub open spec fn version_in(list: Seq<Seq<char>>) -> Option<Seq<char>>
    decreases list.len(),
{
    if list.len() == 0 {
        None
    } else if text::has_prefix(list[0], "JAVA_VERSION="@) {
        Some(
            unquoted_end(
                unquoted_start(text::trimmed(list[0].skip("JAVA_VERSION="@.len() as int))),
            ),
        )
    } else {
        version_in(list.drop_first())
    }
}

/// The Java version that a `release` file gives, or why it is not known. `content` is
/// what the file holds, if it can be read.
pub open spec fn release_version(release: Seq<char>, content: Option<Seq<char>>) -> Seq<char> {
    match content {
        Some(content) => match version_in(lines::line_list(content)) {
            Some(version) => version,
            None => "unknown (no JAVA_VERSION in "@ + release + ")"@,
        },
        None => "unknown ("@ + release + " unreadable)"@,
    }
}

fn unquote(s: &str) -> (t: String)
    ensures
        t@ == unquoted_end(unquoted_start(s@)),
{
    let chars = text::chars_of(s);
    let mut from: usize = 0;
    assert(s@.skip(0) =~= s@);
    while from < chars.len() && chars[from] == '"'
        invariant
            from <= chars@.len(),
            chars@ == s@,
            unquoted_start(s@) == unquoted_start(s@.skip(from as int)),
        decreases chars.len() - from,
    {
        assert(s@.skip(from as int).drop_first() =~= s@.skip(from + 1));
        from += 1;
    }
    let ghost start = s@.skip(from as int);
    let mut to: usize = chars.len();
    assert(start.take(to - from) =~= start);
    while to > from && chars[to - 1] == '"'
        invariant
            from <= to <= chars@.len(),
            chars@ == s@,
            start == s@.skip(from as int),
            unquoted_end(start) == unquoted_end(start.take(to - from)),
        decreases to,
    {
        assert(start.take(to - from).drop_last() =~= start.take(to - from - 1));
        to -= 1;
    }
    let rest = vstd::slice::slice_subrange(chars.as_slice(), from, to);
    assert(rest@ =~= start.take(to - from));
    text::string_of(rest)
}

/// The Java version that a `release` file gives, or why it is not known.
pub fn java_version_of(release: &str, content: Option<&str>) -> (version: String)
    ensures
        version@ == release_version(release@, logging::optional_text(content)),
{
    let held = match content {
        Some(held) => held,
        None => {
            return text::with(text::with("unknown (".to_owned(), release), " unreadable)");
        },
    };
    let list = lines::text_lines(held);
    let ghost all = text::texts(list@);
    let mut i: usize = 0;
    assert(all.skip(0) =~= all);
    while i < list.len()
        invariant
            i <= list@.len(),
            all == text::texts(list@),
            version_in(all) == version_in(all.skip(i as int)),
            logging::optional_text(content) == Some(held@),
            all == lines::line_list(held@),
        decreases list.len() - i,
    {
        assert(all.skip(i as int)[0] == list@[i as int]@);
        assert(all.skip(i as int).drop_first() =~= all.skip(i + 1));
        if text::starts_with(list[i].as_str(), "JAVA_VERSION=") {
            let chars = text::chars_of(list[i].as_str());
            let key = text::chars_of("JAVA_VERSION=");
            let rest = vstd::slice::slice_subrange(chars.as_slice(), key.len(), chars.len());
            assert(rest@ =~= list@[i as int]@.skip("JAVA_VERSION="@.len() as int));
            return unquote(text::trim(text::string_of(rest).as_str()).as_str());
        }
        i += 1;
    }
    text::with(text::with("unknown (no JAVA_VERSION in ".to_owned(), release), ")")
}

/// The text of an answer, if there is one.
pub open spec fn answered(answer: Option<String>) -> Option<Seq<char>> {
    match answer {
        Some(s) => Some(s@),
        None => None,
    }
}

/// A read may answer `content` for a path.
pub open spec fn reads<R: Fn(&str) -> Option<String>>(
    read: R,
    path: Seq<char>,
    content: Option<Seq<char>>,
) -> bool {
    exists|key: &str, answer: Option<String>| #[trigger]
        read.ensures((key,), answer) && key@ == path && content == answered(answer)
}

/// What is said where no Java home is set.
pub open spec fn no_java() -> Seq<char> {
    "unavailable: no Java home (javaHome in .scala3-bsp-semantic-ls/config.json, LS_LIBJVM, and JAVA_HOME are all unset)"@
}

/// `version` is the version of the Java home that the settings name.
pub open spec fn is_java_version<F: Fn(&str) -> bool, R: Fn(&str) -> Option<String>>(
    is_file: F,
    read: R,
    named: Option<Seq<char>>,
    version: Seq<char>,
) -> bool {
    match named {
        None => version == no_java(),
        Some(named) => exists|home: Seq<char>, content: Option<Seq<char>>|
            #![trigger pc::normal_home(is_file, named, home), reads(read, paths::joined_path(home, "release"@), content)]
            pc::normal_home(is_file, named, home) && reads(
                read,
                paths::joined_path(home, "release"@),
                content,
            ) && version == release_version(paths::joined_path(home, "release"@), content),
    }
}

/// The version of the Java home that the settings name. No process is started.
pub fn java_version<F: Fn(&str) -> bool, R: Fn(&str) -> Option<String>>(
    config: Option<&str>,
    ls_libjvm: Option<&str>,
    java_home: Option<&str>,
    is_file: &F,
    read: &R,
) -> (version: String)
    requires
        forall|path: &str| is_file.requires((path,)),
        forall|path: &str| read.requires((path,)),
    ensures
        is_java_version(
            *is_file,
            *read,
            pc::named_home(
                logging::optional_text(config),
                logging::optional_text(ls_libjvm),
                logging::optional_text(java_home),
            ),
            version@,
        ),
{
    let home = match pc::resolve_java_home(config, ls_libjvm, java_home, is_file) {
        Some(home) => home,
        None => {
            return "unavailable: no Java home (javaHome in .scala3-bsp-semantic-ls/config.json, LS_LIBJVM, and JAVA_HOME are all unset)".to_owned();
        },
    };
    let release = paths::join_path(home.as_str(), "release");
    let answer = read(release.as_str());
    assert(reads(*read, release@, answered(answer)));
    match &answer {
        Some(s) => java_version_of(release.as_str(), Some(s.as_str())),
        None => java_version_of(release.as_str(), None),
    }
}

/// The lock file of the workspace.
pub const IVY_LOCK_REL_PATH: &'static str = "nix/ivy-lock.nix";

impl PcPluginsSection {
    /// Why there is no section on plugins.
    pub const DEFERRED: &'static str = "pcPluginStatus is not ported: plugin-status inspection is unavailable";
}

/// What the files of the workspace tell about Nix.
#[derive(Debug, PartialEq, Eq)]
pub struct NixFacts {
    /// Whether there is a `flake.nix`.
    pub flake_exists: bool,
    /// What it holds, if it can be read.
    pub flake: Option<String>,
    /// Whether there is a lock file.
    pub lock_exists: bool,
    /// Whether `mif` is on the `PATH`. It is never run.
    pub mif_runnable: bool,
    /// Whether there is a `build.mill`.
    pub build_exists: bool,
    /// When the lock file was modified, in nanoseconds since 1970.
    pub lock_modified: Option<i128>,
    /// When `build.mill` was modified, in nanoseconds since 1970.
    pub build_modified: Option<i128>,
}

/// Whether the lock file is up to date, as far as the files tell. A lock file that is
/// not there is stale; a look at the modification times is trusted only where `mif`
/// could be run.
pub open spec fn lock_status_text(root: Seq<char>, facts: NixFacts) -> Seq<char> {
    if !facts.flake_exists {
        "unknown: no flake.nix under "@ + root
    } else if !facts.lock_exists {
        "stale (nix/ivy-lock.nix does not exist; run `mif run -p . -o nix/ivy-lock.nix`)"@
    } else if !facts.mif_runnable {
        "unknown: mif is not runnable from this process; CI (scripts/check-ivy-lock.sh) owns the authoritative staleness check"@
    } else if !facts.build_exists {
        "unknown: build.mill not found next to the lock"@
    } else {
        match facts.lock_modified {
            Some(lock) => match facts.build_modified {
                Some(build) => if lock >= build {
                    "fresh (heuristic: nix/ivy-lock.nix is not older than build.mill; authoritative check runs in CI)"@
                } else {
                    "stale (build.mill modified after nix/ivy-lock.nix; run `mif run -p . -o nix/ivy-lock.nix`)"@
                },
                None => "unknown: could not read modification times"@,
            },
            None => "unknown: could not read modification times"@,
        }
    }
}

/// Whether the lock file is up to date, as far as the files tell.
pub fn nix_lock_status(workspace_root: &str, facts: &NixFacts) -> (status: String)
    ensures
        status@ == lock_status_text(workspace_root@, *facts),
{
    if !facts.flake_exists {
        return text::with("unknown: no flake.nix under ".to_owned(), workspace_root);
    }
    if !facts.lock_exists {
        return "stale (nix/ivy-lock.nix does not exist; run `mif run -p . -o nix/ivy-lock.nix`)".to_owned();
    }
    if !facts.mif_runnable {
        return "unknown: mif is not runnable from this process; CI (scripts/check-ivy-lock.sh) owns the authoritative staleness check".to_owned();
    }
    if !facts.build_exists {
        return "unknown: build.mill not found next to the lock".to_owned();
    }
    match facts.lock_modified {
        Some(lock) => match facts.build_modified {
            Some(build) => {
                if lock >= build {
                    "fresh (heuristic: nix/ivy-lock.nix is not older than build.mill; authoritative check runs in CI)".to_owned()
                } else {
                    "stale (build.mill modified after nix/ivy-lock.nix; run `mif run -p . -o nix/ivy-lock.nix`)".to_owned()
                }
            },
            None => "unknown: could not read modification times".to_owned(),
        },
        None => "unknown: could not read modification times".to_owned(),
    }
}

/// Whether the test finds an executable `mif` in a directory of `PATH`.
pub open spec fn finds_mif<F: Fn(&str) -> bool>(
    test: F,
    dirs: Seq<Seq<char>>,
    found: bool,
) -> bool {
    if found {
        exists|i: int|
            0 <= i < dirs.len() && paths::says(
                test,
                paths::joined_path(#[trigger] dirs[i], "mif"@),
                true,
            )
    } else {
        forall|i: int|
            0 <= i < dirs.len() ==> paths::says(
                test,
                paths::joined_path(#[trigger] dirs[i], "mif"@),
                false,
            )
    }
}

/// Whether the test finds an executable `mif` in a directory of `PATH`. An empty
/// directory stands for the current one.
pub fn mif_runnable<F: Fn(&str) -> bool>(path: Option<&str>, is_executable: &F) -> (found: bool)
    requires
        forall|place: &str| is_executable.requires((place,)),
    ensures
        match path {
            Some(path) => finds_mif(*is_executable, paths::pieces(path@, ':'), found),
            None => !found,
        },
{
    let dirs = match path {
        Some(path) => paths::split(path, ':'),
        None => {
            return false;
        },
    };
    let ghost all = text::texts(dirs@);
    let mut i: usize = 0;
    while i < dirs.len()
        invariant
            i <= dirs@.len(),
            all == text::texts(dirs@),
            path is Some && all == paths::pieces(path->0@, ':'),
            forall|place: &str| is_executable.requires((place,)),
            forall|j: int|
                0 <= j < i ==> paths::says(
                    *is_executable,
                    paths::joined_path(#[trigger] all[j], "mif"@),
                    false,
                ),
        decreases dirs.len() - i,
    {
        let place = paths::join_path(dirs[i].as_str(), "mif");
        assert(all[i as int] == dirs@[i as int]@);
        let found = is_executable(place.as_str());
        assert(paths::says(*is_executable, place@, found));
        if found {
            return true;
        }
        i += 1;
    }
    false
}

impl NixSection {
    /// The section on Nix from what the files of the workspace tell.
    pub fn gather(workspace_root: &str, facts: &NixFacts) -> (section: NixSection)
        ensures
            section.flake_detected == facts.flake_exists,
            section.mill_ivy_fetcher_input == (facts.flake_exists && facts.flake is Some
                && pc_overlay::holds(facts.flake->0@, "mill-ivy-fetcher"@)),
            section.ivy_lock_path@ == IVY_LOCK_REL_PATH@,
            section.ivy_lock_exists == facts.lock_exists,
            section.lock_status@ == lock_status_text(workspace_root@, *facts),
    {
        let mentioned = match &facts.flake {
            Some(flake) => pc_overlay::has(flake.as_str(), "mill-ivy-fetcher"),
            None => false,
        };
        NixSection {
            flake_detected: facts.flake_exists,
            mill_ivy_fetcher_input: facts.flake_exists && mentioned,
            ivy_lock_path: IVY_LOCK_REL_PATH.to_owned(),
            ivy_lock_exists: facts.lock_exists,
            lock_status: nix_lock_status(workspace_root, facts),
        }
    }
}

impl RuntimeSection {
    /// The section on the host: the Java version, and the options that the island is
    /// started with.
    pub fn gather(java: String) -> (section: RuntimeSection)
        ensures
            section.java == java,
            text::texts(section.native_access_enabled_for@) == seq!["ALL-UNNAMED"@],
            section.compact_object_headers@ == "enabled"@,
            section.aot_cache@ == "missing (no -XX:AOTCache flag)"@,
    {
        let modules = vec!["ALL-UNNAMED".to_owned()];
        assert(text::texts(modules@) =~= seq!["ALL-UNNAMED"@]);
        RuntimeSection {
            java,
            native_access_enabled_for: modules,
            compact_object_headers: "enabled".to_owned(),
            aot_cache: "missing (no -XX:AOTCache flag)".to_owned(),
        }
    }
}

impl StoreSection {
    /// The section on the index: its status and facts, or that there is none at the
    /// root of the workspace.
    pub fn gather(found: Option<(String, Vec<String>)>) -> (section: StoreSection)
        ensures
            match found {
                Some((status, facts)) => section.status == status && section.facts == facts,
                None => section.status@ == "absent"@ && text::texts(section.facts@) == seq![
                    "no store at this workspace root"@,
                ],
            },
    {
        match found {
            Some((status, facts)) => StoreSection { status, facts },
            None => {
                let facts = vec!["no store at this workspace root".to_owned()];
                assert(text::texts(facts@) =~= seq!["no store at this workspace root"@]);
                StoreSection { status: "absent".to_owned(), facts }
            },
        }
    }
}

/// Whether a section is unavailable for the given reason.
pub open spec fn lacks<T>(state: SectionState<T>, reason: Seq<char>) -> bool {
    match state {
        SectionState::Available(_) => false,
        SectionState::Unavailable(given) => given@ == reason,
    }
}

/// Every section that needs a build server is unavailable.
pub open spec fn is_offline(report: DoctorReport) -> bool {
    &&& lacks(report.bsp, "no BSP connection"@)
    &&& lacks(report.semanticdb, "no BSP connection"@)
    &&& lacks(report.pc, "no BSP connection"@)
    &&& lacks(report.pc_plugins, PcPluginsSection::DEFERRED@)
}

impl DoctorReport {
    /// The report of a server that is not connected: the host, the workspace and the
    /// index are known, and nothing else.
    pub fn offline(runtime: RuntimeSection, nix: NixSection, store: StoreSection) -> (
        report: DoctorReport)
        ensures
            report.runtime == runtime,
            report.nix == nix,
            report.store == store,
            is_offline(report),
    {
        DoctorReport {
            runtime,
            nix,
            bsp: SectionState::Unavailable("no BSP connection".to_owned()),
            semanticdb: SectionState::Unavailable("no BSP connection".to_owned()),
            store,
            pc: SectionState::Unavailable("no BSP connection".to_owned()),
            pc_plugins: SectionState::Unavailable(PcPluginsSection::DEFERRED.to_owned()),
        }
    }
}

/// The name and version of the server.
pub open spec fn version_text() -> Seq<char> {
    capabilities::SERVER_NAME@ + " "@ + capabilities::SERVER_VERSION@
}

/// The name and version of the server, as `--version` prints them.
pub fn version_line() -> (line: String)
    ensures
        line@ == version_text(),
{
    text::with(text::with(capabilities::SERVER_NAME.to_owned(), " "), capabilities::SERVER_VERSION)
}

/// The offline report with its heading.
pub open spec fn offline_text(root: Seq<char>, report: DoctorReport) -> Seq<char> {
    version_text()
        + "\nstate: offline (--doctor): build server and presentation compiler not connected\nworkspace: "@
        + root + "\n\n"@ + report_text(report)
}

/// The offline report that `--doctor` prints, as text or as JSON.
pub fn offline_doctor_report(root: &str, report: &DoctorReport, as_json: bool) -> (s: String)
    ensures
        if as_json {
            vstd::utf8::encode_utf8(s@) == json::printed(json::sorted(report_json(*report)))
        } else {
            s@ == offline_text(root@, *report)
        },
{
    if as_json {
        return json::to_text(&report.render_json().sorted());
    }
    let s = text::with(
        version_line(),
        "\nstate: offline (--doctor): build server and presentation compiler not connected\nworkspace: ",
    );
    let s = text::with(s, root);
    let s = text::with(s, "\n\n");
    text::with(s, report.render_text().as_str())
}

/// The facts of two lists are written one behind the other, and one fact is a line of its own.
pub proof fn law_indented_in_parts(
    first: Seq<Seq<char>>,
    second: Seq<Seq<char>>,
    one: Seq<char>,
)
    ensures
        indented(first + second) == indented(first) + indented(second),
        indented(seq![one]) == "  "@ + one + "\n"@,
    decreases second.len(),
{
    reveal_with_fuel(indented, 2);
    assert(seq![one].drop_last() =~= seq![]);
    assert(indented(seq![one]) =~= "  "@ + one + "\n"@);
    if second.len() == 0 {
        assert(first + second =~= first);
        assert(indented(first) + indented(second) =~= indented(first));
    } else {
        law_indented_in_parts(first, second.drop_last(), one);
        assert((first + second).drop_last() =~= first + second.drop_last());
        assert(indented(first + second) =~= indented(first) + indented(second));
    }
}

/// A report tells a fact: a line of its text is the fact.
#[verifier::opaque]
pub open spec fn tells(report: Seq<char>, fact: Seq<char>) -> bool {
    text::occurs("  "@ + fact + "\n"@, report)
}

proof fn lemma_tells_more(before: Seq<char>, fact: Seq<char>, more: Seq<char>)
    requires
        tells(before, fact),
    ensures
        tells(before + more, fact),
{
    reveal(tells);
    let line = "  "@ + fact + "\n"@;
    text::lemma_occurs(line, Seq::empty(), before, more);
    assert(Seq::<char>::empty() + before + more =~= before + more);
}

proof fn lemma_parts(a: Seq<char>, b: Seq<char>, c: Seq<char>, d: Seq<char>)
    ensures
        a + (b + c + d) + Seq::<char>::empty() == a + b + c + d,
{
    assert(a + (b + c + d) + Seq::<char>::empty() =~= a + b + c + d);
}

proof fn lemma_tells_last(before: Seq<char>, fact: Seq<char>)
    ensures
        tells(before + "  "@ + fact + "\n"@, fact),
{
    let line = "  "@ + fact + "\n"@;
    lemma_parts(before, "  "@, fact, "\n"@);
    assert(tells(before + line + Seq::<char>::empty(), fact)) by {
        reveal(tells);
        text::lemma_occurs_within(before, line, Seq::empty());
    }
}

proof fn lemma_indented_tells(lines: Seq<Seq<char>>, k: int)
    requires
        0 <= k < lines.len(),
    ensures
        tells(indented(lines), lines[k]),
    decreases lines.len(),
{
    let shorter = lines.drop_last();
    let front = indented(shorter);
    if k < shorter.len() {
        lemma_indented_tells(shorter, k);
        let added = "  "@ + lines.last() + "\n"@;
        lemma_tells_more(front, lines[k], added);
        assert(front + added =~= indented(lines));
    } else {
        lemma_tells_last(front, lines[k]);
    }
}

/// The sections of the text of a report, in order.
spec fn sections_of(report: DoctorReport) -> Seq<Seq<char>> {
    seq![
        section_text("Runtime"@, runtime_text(report.runtime)),
        section_text("Nix"@, nix_text(report.nix)),
        section_text("BSP"@, state_lines(report.bsp, |b: BspSection| bsp_text(b))),
        section_text(
            "SemanticDB"@,
            state_lines(report.semanticdb, |s: SemanticdbSection| semanticdb_text(s)),
        ),
        section_text("Store"@, text::texts(report.store.facts@)),
        section_text("PC"@, state_lines(report.pc, |p: PcSection| pc_text(p))),
        section_text(
            "PC Plugins"@,
            state_lines(report.pc_plugins, |p: PcPluginsSection| seq![]),
        ),
    ]
}

proof fn lemma_section_tells(
    report: DoctorReport,
    at: int,
    name: Seq<char>,
    lines: Seq<Seq<char>>,
    k: int,
)
    requires
        0 <= at < 7,
        sections_of(report)[at] == section_text(name, lines),
        0 <= k < lines.len(),
    ensures
        tells(report_text(report), lines[k]),
{
    reveal(tells);
    let all = sections_of(report);
    let line = "  "@ + lines[k] + "\n"@;
    let section = section_text(name, lines);
    lemma_indented_tells(lines, k);
    text::lemma_occurs(line, name + ":\n"@, indented(lines), seq![]);
    assert(name + ":\n"@ + indented(lines) + seq![] =~= section);
    text::law_joined_holds_each(all, "\n"@);
    assert(text::occurs(all[at], report_text(report)));
    lemma_occurs_through(line, section, report_text(report));
}

proof fn lemma_occurs_through(part: Seq<char>, middle: Seq<char>, s: Seq<char>)
    requires
        text::occurs(part, middle),
        text::occurs(middle, s),
    ensures
        text::occurs(part, s),
{
    let i = choose|i: int|
        0 <= i && i + middle.len() <= s.len() && #[trigger] s.subrange(i, i + middle.len())
            == middle;
    text::lemma_occurs(part, s.take(i), middle, s.skip(i + middle.len()));
    assert(s.take(i) + middle + s.skip(i + middle.len()) =~= s);
}

/// The text of a report tells what is known of the host, of Nix and of the index, and of each
/// section that is unavailable why it is.
pub proof fn law_report_tells_known(report: DoctorReport)
    ensures
        tells(report_text(report), "Java: "@ + report.runtime.java@),
        tells(
            report_text(report),
            "Compact Object Headers: "@ + report.runtime.compact_object_headers@,
        ),
        tells(report_text(report), "AOT cache: "@ + report.runtime.aot_cache@),
        tells(
            report_text(report),
            "flake detected: "@ + (if report.nix.flake_detected {
                "yes"@
            } else {
                "no"@
            }),
        ),
        tells(
            report_text(report),
            "mill-ivy-fetcher input: "@ + (if report.nix.mill_ivy_fetcher_input {
                "yes"@
            } else {
                "no"@
            }),
        ),
        tells(
            report_text(report),
            "ivy lock: "@ + report.nix.ivy_lock_path@ + " ("@ + (if report.nix.ivy_lock_exists {
                "exists"@
            } else {
                "missing"@
            }) + ")"@,
        ),
        tells(report_text(report), "lock status: "@ + report.nix.lock_status@),
        forall|k: int|
            0 <= k < report.store.facts@.len() ==> tells(
                report_text(report),
                (#[trigger] report.store.facts@[k])@,
            ),
        report.bsp matches SectionState::Unavailable(reason) ==> tells(
            report_text(report),
            "unavailable: "@ + reason@,
        ),
        report.semanticdb matches SectionState::Unavailable(reason) ==> tells(
            report_text(report),
            "unavailable: "@ + reason@,
        ),
        report.pc matches SectionState::Unavailable(reason) ==> tells(
            report_text(report),
            "unavailable: "@ + reason@,
        ),
        report.pc_plugins matches SectionState::Unavailable(reason) ==> tells(
            report_text(report),
            "unavailable: "@ + reason@,
        ),
{
    let runtime = runtime_text(report.runtime);
    lemma_section_tells(report, 0, "Runtime"@, runtime, 0);
    lemma_section_tells(report, 0, "Runtime"@, runtime, 2);
    lemma_section_tells(report, 0, "Runtime"@, runtime, 3);
    let nix = nix_text(report.nix);
    lemma_section_tells(report, 1, "Nix"@, nix, 0);
    lemma_section_tells(report, 1, "Nix"@, nix, 1);
    lemma_section_tells(report, 1, "Nix"@, nix, 2);
    lemma_section_tells(report, 1, "Nix"@, nix, 3);
    let store = text::texts(report.store.facts@);
    assert forall|k: int| 0 <= k < report.store.facts@.len() implies tells(
        report_text(report),
        (#[trigger] report.store.facts@[k])@,
    ) by {
        lemma_section_tells(report, 4, "Store"@, store, k);
        assert(store[k] == report.store.facts@[k]@);
    }
    match report.bsp {
        SectionState::Unavailable(reason) => lemma_section_tells(
            report,
            2,
            "BSP"@,
            seq!["unavailable: "@ + reason@],
            0,
        ),
        _ => {},
    }
    match report.semanticdb {
        SectionState::Unavailable(reason) => lemma_section_tells(
            report,
            3,
            "SemanticDB"@,
            seq!["unavailable: "@ + reason@],
            0,
        ),
        _ => {},
    }
    match report.pc {
        SectionState::Unavailable(reason) => lemma_section_tells(
            report,
            5,
            "PC"@,
            seq!["unavailable: "@ + reason@],
            0,
        ),
        _ => {},
    }
    match report.pc_plugins {
        SectionState::Unavailable(reason) => lemma_section_tells(
            report,
            6,
            "PC Plugins"@,
            seq!["unavailable: "@ + reason@],
            0,
        ),
        _ => {},
    }
}

/// The text of a report with a build server tells which one, how many targets it has, and each
/// target without SemanticDB.
pub proof fn law_report_tells_build(report: DoctorReport, b: BspSection)
    requires
        report.bsp == SectionState::Available(b),
    ensures
        tells(report_text(report), "targets: "@ + numerals::decimal(b.target_count as nat)),
        match (b.server_name, b.server_version) {
            (Some(name), Some(version)) => tells(
                report_text(report),
                "server: "@ + (name@ + " "@ + version@),
            ),
            (Some(name), None) => tells(report_text(report), "server: "@ + name@),
            (None, Some(version)) => tells(
                report_text(report),
                "server: "@ + ("unknown server "@ + version@),
            ),
            (None, None) => tells(
                report_text(report),
                "server: "@ + "unknown (initialize result not provided)"@,
            ),
        },
        forall|k: int|
            0 <= k < b.index_unavailable_targets@.len() ==> text::occurs(
                (#[trigger] b.index_unavailable_targets@[k])@,
                report_text(report),
            ),
        forall|k: int|
            0 <= k < b.scala3_targets@.len() && k < 20 ==> text::occurs(
                (#[trigger] b.scala3_targets@[k])@,
                report_text(report),
            ),
{
    reveal(tells);
    let lines = bsp_text(b);
    assert(state_lines(report.bsp, |b: BspSection| bsp_text(b)) == lines);
    lemma_section_tells(report, 2, "BSP"@, lines, 0);
    lemma_section_tells(report, 2, "BSP"@, lines, 1);
    lemma_section_tells(report, 2, "BSP"@, lines, 2);
    lemma_section_tells(report, 2, "BSP"@, lines, 3);
    let lacking = text::texts(b.index_unavailable_targets@);
    assert forall|k: int| 0 <= k < b.index_unavailable_targets@.len() implies text::occurs(
        (#[trigger] b.index_unavailable_targets@[k])@,
        report_text(report),
    ) by {
        text::law_joined_holds_each(lacking, ", "@);
        assert(lacking[k] == b.index_unavailable_targets@[k]@);
        let list = text::joined(lacking, ", "@);
        let head = "SemanticDB coverage: ERROR - "@ + numerals::decimal(lacking.len())
            + " target(s) without SemanticDB (recompile with -Xsemanticdb): "@;
        text::lemma_occurs(lacking[k], "  "@ + head, list, "\n"@);
        assert("  "@ + head + list + "\n"@ =~= "  "@ + lines[3] + "\n"@);
        lemma_occurs_through(lacking[k], "  "@ + lines[3] + "\n"@, report_text(report));
    }
    let targets = text::texts(b.scala3_targets@);
    assert forall|k: int| 0 <= k < b.scala3_targets@.len() && k < 20 implies text::occurs(
        (#[trigger] b.scala3_targets@[k])@,
        report_text(report),
    ) by {
        assert(targets[k] == b.scala3_targets@[k]@);
        lemma_list_tells(targets, "0"@, k);
        let list = list_text(targets, "0"@);
        text::lemma_occurs(targets[k], "  "@ + "Scala 3 targets: "@, list, "\n"@);
        assert("  "@ + "Scala 3 targets: "@ + list + "\n"@ =~= "  "@ + lines[2] + "\n"@);
        lemma_occurs_through(targets[k], "  "@ + lines[2] + "\n"@, report_text(report));
    }
}

proof fn lemma_list_tells(items: Seq<Seq<char>>, empty: Seq<char>, k: int)
    requires
        0 <= k < items.len(),
        k < 20,
    ensures
        text::occurs(items[k], list_text(items, empty)),
{
    let shown = if items.len() <= LIST_CAP {
        items
    } else {
        items.take(LIST_CAP as int)
    };
    let list = text::joined(shown, ", "@);
    text::law_joined_holds_each(shown, ", "@);
    assert(shown[k] == items[k]);
    let head = numerals::decimal(items.len()) + " ("@;
    let tail = if items.len() <= LIST_CAP {
        ")"@
    } else {
        ", ... (+"@ + numerals::decimal((items.len() - LIST_CAP) as nat) + " more)"@ + ")"@
    };
    text::lemma_occurs(items[k], head, list, tail);
    assert(head + list + tail =~= list_text(items, empty));
}

/// A list shows how long it is and at most twenty of its items, and of a longer one how many it
/// leaves out.
pub proof fn law_lists_are_capped(items: Seq<Seq<char>>, empty: Seq<char>)
    ensures
        items.len() == 0 ==> list_text(items, empty) == empty,
        0 < items.len() <= 20 ==> list_text(items, empty) == numerals::decimal(items.len())
            + " ("@ + text::joined(items, ", "@) + ")"@,
        items.len() > 20 ==> list_text(items, empty) == numerals::decimal(items.len()) + " ("@
            + (text::joined(items.take(20), ", "@) + ", ... (+"@ + numerals::decimal(
            (items.len() - 20) as nat,
        ) + " more)"@) + ")"@,
{
}

/// The text of a report on SemanticDB tells each directory with its target, its place, and how
/// many files it holds, how many documents are up to date, and each that is not.
pub proof fn law_report_tells_semanticdb(report: DoctorReport, s: SemanticdbSection)
    requires
        report.semanticdb == SectionState::Available(s),
    ensures
        tells(report_text(report), "semanticdb roots: "@ + numerals::decimal(s.roots@.len())),
        forall|k: int|
            0 <= k < s.roots@.len() ==> tells(
                report_text(report),
                "  "@ + (#[trigger] s.roots@[k]).bsp_id@ + ": "@ + s.roots@[k].semanticdb_root@
                    + " ("@ + (if s.roots@[k].exists {
                    "exists, "@ + numerals::decimal(s.roots@[k].semanticdb_file_count as nat)
                        + " semanticdb files"@
                } else {
                    "missing"@
                }) + ")"@,
            ),
        match s.freshness {
            Some(f) => {
                &&& tells(report_text(report), "fresh docs: "@ + numerals::decimal(f.fresh as nat))
                &&& tells(
                    report_text(report),
                    "stale docs (md5 mismatch): "@ + numerals::decimal(f.stale as nat),
                )
                &&& tells(
                    report_text(report),
                    "missing docs: "@ + numerals::decimal(f.missing as nat),
                )
                &&& forall|k: int|
                    0 <= k < f.uris@.len() ==> text::occurs(
                        (#[trigger] f.uris@[k])@,
                        report_text(report),
                    )
            },
            None => tells(report_text(report), "doc freshness: unavailable: not computed yet"@),
        },
{
    let lines = semanticdb_text(s);
    assert(state_lines(report.semanticdb, |s: SemanticdbSection| semanticdb_text(s)) == lines);
    let fresh = freshness_text(s.freshness);
    let n: int = s.roots@.len() as int;
    lemma_section_tells(report, 3, "SemanticDB"@, lines, 0);
    assert forall|k: int| 0 <= k < s.roots@.len() implies tells(
        report_text(report),
        "  "@ + (#[trigger] s.roots@[k]).bsp_id@ + ": "@ + s.roots@[k].semanticdb_root@ + " ("@ + (
        if s.roots@[k].exists {
            "exists, "@ + numerals::decimal(s.roots@[k].semanticdb_file_count as nat)
                + " semanticdb files"@
        } else {
            "missing"@
        }) + ")"@,
    ) by {
        lemma_section_tells(report, 3, "SemanticDB"@, lines, 1 + k);
        assert(lines[1 + k] == roots_text(s.roots@)[k]);
    }
    assert(fresh.len() > 0);
    assert(lines[1 + n] == fresh[0]);
    lemma_section_tells(report, 3, "SemanticDB"@, lines, 1 + n);
    match s.freshness {
        Some(f) => {
            assert(lines[2 + n] == fresh[1] && lines[3 + n] == fresh[2]);
            lemma_section_tells(report, 3, "SemanticDB"@, lines, 2 + n);
            lemma_section_tells(report, 3, "SemanticDB"@, lines, 3 + n);
            let uris = text::texts(f.uris@);
            assert forall|k: int| 0 <= k < f.uris@.len() implies text::occurs(
                (#[trigger] f.uris@[k])@,
                report_text(report),
            ) by {
                assert(lines[4 + n] == fresh[3]);
                lemma_section_tells(report, 3, "SemanticDB"@, lines, 4 + n);
                text::law_joined_holds_each(uris, ", "@);
                assert(uris[k] == f.uris@[k]@);
                let list = text::joined(uris, ", "@);
                reveal(tells);
                let head = "  "@ + "stale/missing uris: "@;
                text::lemma_occurs(uris[k], head, list, "\n"@);
                assert(head + list + "\n"@ =~= "  "@ + fresh[3] + "\n"@);
                lemma_occurs_through(uris[k], "  "@ + fresh[3] + "\n"@, report_text(report));
            }
        },
        None => {},
    }
}

/// What is found is a list of texts, each of them in order.
pub open spec fn shows_list(found: Option<JsonV>, list: Seq<String>) -> bool {
    match found {
        Some(JsonV::Array(items)) => items.len() == list.len() && forall|k: int|
            0 <= k < items.len() ==> #[trigger] items[k] == JsonV::Str(list[k]@),
        _ => false,
    }
}

/// What is found is a text, or null where there is none.
pub open spec fn shows_optional(found: Option<JsonV>, text: Option<String>) -> bool {
    match text {
        Some(text) => found == Some(JsonV::Str(text@)),
        None => found == Some(JsonV::Null),
    }
}

/// A JSON object shows a SemanticDB directory.
pub open spec fn shows_root(value: JsonV, root: SemanticdbRoot) -> bool {
    &&& value.get("bspId"@) == Some(JsonV::Str(root.bsp_id@))
    &&& value.get("semanticdbRoot"@) == Some(JsonV::Str(root.semanticdb_root@))
    &&& value.get("exists"@) == Some(JsonV::Bool(root.exists))
    &&& value.get("semanticdbFileCount"@) == Some(
        json::int_view(root.semanticdb_file_count as int),
    )
}

/// The JSON of a report shows what is known of the host, of Nix and of the index, field by
/// field.
pub proof fn law_known_shown(report: DoctorReport)
    ensures
        report_json(report).get("runtime"@) matches Some(value) && value.get("java"@) == Some(
            JsonV::Str(report.runtime.java@),
        ) && shows_list(
            value.get("nativeAccessEnabledFor"@),
            report.runtime.native_access_enabled_for@,
        ) && value.get("compactObjectHeaders"@) == Some(
            JsonV::Str(report.runtime.compact_object_headers@),
        ) && value.get("aotCache"@) == Some(JsonV::Str(report.runtime.aot_cache@)),
        report_json(report).get("nix"@) matches Some(value) && value.get("flakeDetected"@)
            == Some(JsonV::Bool(report.nix.flake_detected)) && value.get("millIvyFetcherInput"@)
            == Some(JsonV::Bool(report.nix.mill_ivy_fetcher_input)) && value.get("ivyLockPath"@)
            == Some(JsonV::Str(report.nix.ivy_lock_path@)) && value.get("ivyLockExists"@) == Some(
            JsonV::Bool(report.nix.ivy_lock_exists),
        ) && value.get("lockStatus"@) == Some(JsonV::Str(report.nix.lock_status@)),
        report_json(report).get("store"@) matches Some(value) && value.get("status"@) == Some(
            JsonV::Str(report.store.status@),
        ) && shows_list(value.get("facts"@), report.store.facts@),
{
    broadcast use json::lemma_member_short;

    lemma_report_members(report);
    json::law_strings_shown(report.runtime.native_access_enabled_for@);
    json::law_strings_shown(report.store.facts@);
    reveal_strlit("java");
    reveal_strlit("nativeAccessEnabledFor");
    reveal_strlit("compactObjectHeaders");
    reveal_strlit("aotCache");
    assert("java"@.len() == 4 && "nativeAccessEnabledFor"@.len() == 22);
    assert("compactObjectHeaders"@.len() == 20 && "aotCache"@.len() == 8);
    reveal_strlit("flakeDetected");
    reveal_strlit("millIvyFetcherInput");
    reveal_strlit("ivyLockPath");
    reveal_strlit("ivyLockExists");
    reveal_strlit("lockStatus");
    assert("flakeDetected"@.len() == 13 && "ivyLockExists"@.len() == 13);
    assert("flakeDetected"@[0] == 'f' && "ivyLockExists"@[0] == 'i');
    assert("millIvyFetcherInput"@.len() == 19 && "ivyLockPath"@.len() == 11);
    assert("lockStatus"@.len() == 10);
    reveal_strlit("status");
    reveal_strlit("facts");
    assert("status"@.len() == 6 && "facts"@.len() == 5);
}

proof fn lemma_report_members(report: DoctorReport)
    ensures
        report_json(report).get("runtime"@) == Some(runtime_json(report.runtime)),
        report_json(report).get("nix"@) == Some(nix_json(report.nix)),
        report_json(report).get("bsp"@) == Some(
            state_json(report.bsp, |b: BspSection| bsp_json(b)),
        ),
        report_json(report).get("semanticdb"@) == Some(
            state_json(report.semanticdb, |s: SemanticdbSection| semanticdb_json(s)),
        ),
        report_json(report).get("store"@) == Some(store_json(report.store)),
        report_json(report).get("pc"@) == Some(state_json(report.pc, |p: PcSection| pc_json(p))),
        report_json(report).get("pcPlugins"@) == Some(
            state_json(report.pc_plugins, |p: PcPluginsSection| JsonV::Object(seq![])),
        ),
{
    broadcast use json::lemma_member_short;

    reveal_strlit("runtime");
    reveal_strlit("nix");
    reveal_strlit("bsp");
    reveal_strlit("semanticdb");
    reveal_strlit("store");
    reveal_strlit("pc");
    reveal_strlit("pcPlugins");
    assert("runtime"@.len() == 7 && "semanticdb"@.len() == 10 && "store"@.len() == 5);
    assert("nix"@.len() == 3 && "bsp"@.len() == 3 && "nix"@[0] == 'n' && "bsp"@[0] == 'b');
    assert("pc"@.len() == 2 && "pcPlugins"@.len() == 9);
}

/// The JSON of a report shows the sections that need a build server, field by field and each
/// list whole, and of one that is unavailable why it is.
pub proof fn law_sections_shown(report: DoctorReport)
    ensures
        report_json(report).get("bsp"@) matches Some(value) && match report.bsp {
            SectionState::Available(b) => {
                &&& shows_optional(value.get("serverName"@), b.server_name)
                &&& shows_optional(value.get("serverVersion"@), b.server_version)
                &&& value.get("targetCount"@) == Some(json::int_view(b.target_count as int))
                &&& shows_list(value.get("scala3Targets"@), b.scala3_targets@)
                &&& shows_list(
                    value.get("indexUnavailableTargets"@),
                    b.index_unavailable_targets@,
                )
            },
            SectionState::Unavailable(reason) => value.get("unavailable"@) == Some(
                JsonV::Str(reason@),
            ),
        },
        report_json(report).get("pc"@) matches Some(value) && match report.pc {
            SectionState::Available(p) => {
                &&& value.get("workerStatus"@) == Some(JsonV::Str(p.worker_status@))
                &&& shows_list(value.get("activeTargets"@), p.active_targets@)
                &&& shows_list(value.get("registeredTargets"@), p.registered_targets@)
            },
            SectionState::Unavailable(reason) => value.get("unavailable"@) == Some(
                JsonV::Str(reason@),
            ),
        },
        report_json(report).get("pcPlugins"@) matches Some(value) && (
        report.pc_plugins matches SectionState::Unavailable(reason) ==> value.get("unavailable"@)
            == Some(JsonV::Str(reason@))),
{
    broadcast use json::lemma_member_short;

    lemma_report_members(report);
    match report.bsp {
        SectionState::Available(b) => {
            json::law_strings_shown(b.scala3_targets@);
            json::law_strings_shown(b.index_unavailable_targets@);
        },
        _ => {},
    }
    match report.pc {
        SectionState::Available(p) => {
            json::law_strings_shown(p.active_targets@);
            json::law_strings_shown(p.registered_targets@);
        },
        _ => {},
    }
    reveal_strlit("serverName");
    reveal_strlit("serverVersion");
    reveal_strlit("targetCount");
    reveal_strlit("scala3Targets");
    reveal_strlit("indexUnavailableTargets");
    assert("serverName"@.len() == 10 && "serverVersion"@.len() == 13);
    assert("targetCount"@.len() == 11 && "scala3Targets"@.len() == 13);
    assert("serverVersion"@[1] == 'e' && "scala3Targets"@[1] == 'c');
    assert("indexUnavailableTargets"@.len() == 23);
    reveal_strlit("workerStatus");
    reveal_strlit("activeTargets");
    reveal_strlit("registeredTargets");
    assert("workerStatus"@.len() == 12 && "activeTargets"@.len() == 13);
    assert("registeredTargets"@.len() == 17);
}

/// The JSON of a report on SemanticDB shows each directory, in order, how many documents are up
/// to date and which are not, and the stale targets.
pub proof fn law_semanticdb_shown(report: DoctorReport, s: SemanticdbSection)
    requires
        report.semanticdb == SectionState::Available(s),
    ensures
        report_json(report).get("semanticdb"@) == Some(semanticdb_json(s)),
        semanticdb_json(s).get("roots"@) matches Some(JsonV::Array(items)) && items.len()
            == s.roots@.len() && forall|k: int|
            0 <= k < items.len() ==> shows_root(#[trigger] items[k], s.roots@[k]),
        semanticdb_json(s).get("generatedSourceCount"@) == Some(
            json::int_view(s.generated_source_count as int),
        ),
        shows_list(semanticdb_json(s).get("staleTargets"@), s.stale_targets@),
        semanticdb_json(s).get("freshness"@) matches Some(value) && match s.freshness {
            Some(f) => {
                &&& value.get("fresh"@) == Some(json::int_view(f.fresh as int))
                &&& value.get("stale"@) == Some(json::int_view(f.stale as int))
                &&& value.get("missing"@) == Some(json::int_view(f.missing as int))
                &&& shows_list(value.get("uris"@), f.uris@)
            },
            None => value == JsonV::Null,
        },
{
    broadcast use json::lemma_member_short;

    lemma_report_members(report);
    json::law_strings_shown(s.stale_targets@);
    match s.freshness {
        Some(f) => json::law_strings_shown(f.uris@),
        None => {},
    }
    reveal_strlit("roots");
    reveal_strlit("freshness");
    reveal_strlit("generatedSourceCount");
    reveal_strlit("staleTargets");
    assert("roots"@.len() == 5 && "freshness"@.len() == 9);
    assert("generatedSourceCount"@.len() == 20 && "staleTargets"@.len() == 12);
    reveal_strlit("fresh");
    reveal_strlit("stale");
    reveal_strlit("missing");
    reveal_strlit("uris");
    assert("fresh"@.len() == 5 && "stale"@.len() == 5 && "fresh"@[0] != "stale"@[0]);
    assert("missing"@.len() == 7 && "uris"@.len() == 4);
    reveal_strlit("bspId");
    reveal_strlit("semanticdbRoot");
    reveal_strlit("exists");
    reveal_strlit("semanticdbFileCount");
    assert("bspId"@.len() == 5 && "semanticdbRoot"@.len() == 14 && "exists"@.len() == 6);
    assert("semanticdbFileCount"@.len() == 19);
    let items = s.roots@.map_values(|root: SemanticdbRoot| root_json(root));
    assert forall|k: int| 0 <= k < items.len() implies shows_root(
        #[trigger] items[k],
        s.roots@[k],
    ) by {
        let root = s.roots@[k];
        assert(items[k] == root_json(root));
    }
    assert(semanticdb_json(s).get("roots"@) == Some(JsonV::Array(items)));
}

/// The lock file is said to be fresh where it is at least as new as the build file, and stale
/// where it is missing or older, as far as both can be told; in every other case nothing is
/// claimed.
pub proof fn law_lock_status_honest(root: Seq<char>, facts: NixFacts)
    ensures
        ({
            let judged = facts.flake_exists && facts.lock_exists && facts.mif_runnable
                && facts.build_exists && facts.lock_modified is Some
                && facts.build_modified is Some;
            let status = lock_status_text(root, facts);
            &&& text::has_prefix(status, "fresh "@) <==> judged && facts.lock_modified->Some_0
                >= facts.build_modified->Some_0
            &&& text::has_prefix(status, "stale "@) <==> (facts.flake_exists
                && !facts.lock_exists) || (judged && facts.lock_modified->Some_0
                < facts.build_modified->Some_0)
            &&& text::has_prefix(status, "unknown: "@) || text::has_prefix(status, "fresh "@)
                || text::has_prefix(status, "stale "@)
        }),
{
    reveal_strlit("fresh ");
    reveal_strlit("stale ");
    reveal_strlit("unknown: ");
    reveal_strlit("unknown: no flake.nix under ");
    reveal_strlit("stale (nix/ivy-lock.nix does not exist; run `mif run -p . -o nix/ivy-lock.nix`)");
    reveal_strlit("unknown: mif is not runnable from this process; CI (scripts/check-ivy-lock.sh) owns the authoritative staleness check");
    reveal_strlit("unknown: build.mill not found next to the lock");
    reveal_strlit("fresh (heuristic: nix/ivy-lock.nix is not older than build.mill; authoritative check runs in CI)");
    reveal_strlit("stale (build.mill modified after nix/ivy-lock.nix; run `mif run -p . -o nix/ivy-lock.nix`)");
    reveal_strlit("unknown: could not read modification times");
    let status = lock_status_text(root, facts);
    assert(status[0] == 'f' || status[0] == 's' || status[0] == 'u');
    assert("fresh "@[0] == 'f' && "stale "@[0] == 's' && "unknown: "@[0] == 'u');
    if status[0] == 'f' {
        assert(status.take(6) =~= "fresh "@);
    } else if status[0] == 's' {
        assert(status.take(6) =~= "stale "@);
    } else {
        assert(status.take(9) =~= "unknown: "@);
    }
    if text::has_prefix(status, "fresh "@) {
        assert(status.take(6)[0] == 'f');
    }
    if text::has_prefix(status, "stale "@) {
        assert(status.take(6)[0] == 's');
    }
}

/// The first line that gives a Java version is the one that counts, and the version is what stands
/// in it between quotation marks; without such a line there is none.
pub proof fn law_java_version_read(
    before: Seq<Seq<char>>,
    version: Seq<char>,
    after: Seq<Seq<char>>,
)
    requires
        forall|i: int|
            0 <= i < before.len() ==> !text::has_prefix(#[trigger] before[i], "JAVA_VERSION="@),
        version.len() > 0,
        version[0] != '"',
        version.last() != '"',
    ensures
        version_in(
            before + seq!["JAVA_VERSION="@ + (seq!['"'] + version + seq!['"'])] + after,
        ) == Some(version),
        version_in(before) is None,
    decreases before.len(),
{
    let quoted = seq!['"'] + version + seq!['"'];
    let line = "JAVA_VERSION="@ + quoted;
    let list = before + seq![line] + after;
    if before.len() == 0 {
        let n = "JAVA_VERSION="@.len() as int;
        assert(list[0] == line);
        assert(line.take(n) =~= "JAVA_VERSION="@);
        assert(line.skip(n) =~= quoted);
        assert(quoted[0] == '"' && quoted.last() == '"');
        assert(text::trimmed(quoted) == quoted);
        assert(quoted.drop_first() =~= version + seq!['"']);
        reveal_with_fuel(unquoted_start, 3);
        assert(unquoted_start(quoted) == version + seq!['"']);
        assert((version + seq!['"']).drop_last() =~= version);
        reveal_with_fuel(unquoted_end, 3);
        assert(unquoted_end(version + seq!['"']) == version);
    } else {
        let rest = before.drop_first();
        assert forall|i: int| 0 <= i < rest.len() implies !text::has_prefix(
            #[trigger] rest[i],
            "JAVA_VERSION="@,
        ) by {
            assert(rest[i] == before[i + 1]);
        }
        law_java_version_read(rest, version, after);
        assert(list.drop_first() =~= rest + seq![line] + after);
        assert(list[0] == before[0]);
    }
}

/// The offline report begins with the server, tells its workspace, and holds the whole report.
pub proof fn law_offline_told(root: Seq<char>, report: DoctorReport)
    ensures
        text::has_prefix(offline_text(root, report), "scala3-bsp-semantic-ls 0.1.0\nstate: offline"@),
        text::occurs("workspace: "@ + root + "\n"@, offline_text(root, report)),
        exists|head: Seq<char>| offline_text(root, report) == #[trigger] (head + report_text(report)),
{
    let state = "\nstate: offline (--doctor): build server and presentation compiler not connected\nworkspace: "@;
    let told = offline_text(root, report);
    reveal_strlit("scala3-bsp-semantic-ls 0.1.0\nstate: offline");
    reveal_strlit("scala3-bsp-semantic-ls");
    reveal_strlit(" ");
    reveal_strlit("0.1.0");
    reveal_strlit(
        "\nstate: offline (--doctor): build server and presentation compiler not connected\nworkspace: ",
    );
    reveal_strlit("workspace: ");
    reveal_strlit("\n");
    reveal_strlit("\n\n");
    let begin = "scala3-bsp-semantic-ls 0.1.0\nstate: offline"@;
    assert(told.take(begin.len() as int) =~= begin);
    let cut = state.len() - "workspace: "@.len();
    assert(state =~= state.take(cut) + "workspace: "@);
    assert("\n\n"@ =~= "\n"@ + "\n"@);
    let part = "workspace: "@ + root + "\n"@;
    text::lemma_occurs_within(version_text() + state.take(cut), part, "\n"@ + report_text(report));
    assert(told =~= version_text() + state.take(cut) + part + ("\n"@ + report_text(report)));
    let head = version_text() + state + root + "\n\n"@;
    assert(told == head + report_text(report));
}

/// The report tells of the presentation compiler its status, the targets that are active and those
/// that are registered, as far as a list goes.
pub proof fn law_report_tells_compiler(report: DoctorReport, p: PcSection)
    requires
        report.pc == SectionState::Available(p),
    ensures
        tells(report_text(report), "worker status: "@ + p.worker_status@),
        p.active_targets@.len() == 0 ==> tells(report_text(report), "active targets: "@ + "none"@),
        p.registered_targets@.len() == 0 ==> tells(
            report_text(report),
            "registered targets: "@ + "none"@,
        ),
        forall|k: int|
            0 <= k < p.active_targets@.len() && k < 20 ==> text::occurs(
                (#[trigger] p.active_targets@[k])@,
                report_text(report),
            ),
        forall|k: int|
            0 <= k < p.registered_targets@.len() && k < 20 ==> text::occurs(
                (#[trigger] p.registered_targets@[k])@,
                report_text(report),
            ),
{
    reveal(tells);
    let lines = pc_text(p);
    assert(state_lines(report.pc, |p: PcSection| pc_text(p)) == lines);
    lemma_section_tells(report, 5, "PC"@, lines, 0);
    lemma_section_tells(report, 5, "PC"@, lines, 1);
    lemma_section_tells(report, 5, "PC"@, lines, 2);
    let active = text::texts(p.active_targets@);
    let registered = text::texts(p.registered_targets@);
    assert forall|k: int| 0 <= k < p.active_targets@.len() && k < 20 implies text::occurs(
        (#[trigger] p.active_targets@[k])@,
        report_text(report),
    ) by {
        assert(active[k] == p.active_targets@[k]@);
        lemma_list_tells(active, "none"@, k);
        let list = list_text(active, "none"@);
        text::lemma_occurs(active[k], "  "@ + "active targets: "@, list, "\n"@);
        assert("  "@ + "active targets: "@ + list + "\n"@ =~= "  "@ + lines[1] + "\n"@);
        lemma_occurs_through(active[k], "  "@ + lines[1] + "\n"@, report_text(report));
    }
    assert forall|k: int| 0 <= k < p.registered_targets@.len() && k < 20 implies text::occurs(
        (#[trigger] p.registered_targets@[k])@,
        report_text(report),
    ) by {
        assert(registered[k] == p.registered_targets@[k]@);
        lemma_list_tells(registered, "none"@, k);
        let list = list_text(registered, "none"@);
        text::lemma_occurs(registered[k], "  "@ + "registered targets: "@, list, "\n"@);
        assert("  "@ + "registered targets: "@ + list + "\n"@ =~= "  "@ + lines[2] + "\n"@);
        lemma_occurs_through(registered[k], "  "@ + lines[2] + "\n"@, report_text(report));
    }
}

} // verus!
