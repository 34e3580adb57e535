//! The diagnostics router. Build diagnostics arrive per file and build target,
//! each publish replacing or extending what the target reported; the router merges
//! the targets of a file into one publish, and forwards the clearing of a file
//! exactly once.

use vstd::prelude::*;
use vstd::string::*;

use crate::bsp;
use crate::protocol::{Diagnostic, DiagnosticCode, Position, PublishDiagnosticsParams, Range};
use crate::strmap::StrMap;
use crate::text;

verus! {

/// The severity of a build diagnostic: 1 to 4 as they are, anything else
/// information.
pub open spec fn severity_of(severity: i32) -> u32 {
    if 1 <= severity <= 4 {
        severity as u32
    } else {
        3
    }
}

/// A coordinate, with 0 in place of a negative one.
pub open spec fn coordinate_of(n: i32) -> u32 {
    if n < 0 {
        0
    } else {
        n as u32
    }
}

/// A position of a build diagnostic.
pub open spec fn position_of(p: bsp::Position) -> Position {
    Position { line: coordinate_of(p.line), character: coordinate_of(p.character) }
}

/// The range of a build diagnostic; the origin where it has none.
pub open spec fn range_of(range: Option<bsp::Range>) -> Range {
    match range {
        Some(r) => Range { start: position_of(r.start), end: position_of(r.end) },
        None => Range {
            start: Position { line: 0, character: 0 },
            end: Position { line: 0, character: 0 },
        },
    }
}

/// The diagnostic that a build diagnostic is published as.
pub open spec fn published_as(d: bsp::Diagnostic) -> Diagnostic {
    Diagnostic {
        range: range_of(d.range),
        severity: match d.severity {
            Some(severity) => Some(severity_of(severity)),
            None => None,
        },
        code: match d.code {
            Some(bsp::DiagnosticCode::Integer(n)) => Some(DiagnosticCode::Integer(n)),
            Some(bsp::DiagnosticCode::String(s)) => Some(DiagnosticCode::String(s)),
            None => None,
        },
        source: d.source,
        message: d.message,
    }
}

fn to_lsp_severity(severity: i32) -> (s: u32)
    ensures
        s == severity_of(severity),
{
    if 1 <= severity && severity <= 4 {
        severity as u32
    } else {
        3
    }
}

fn to_lsp_position(p: &bsp::Position) -> (position: Position)
    ensures
        position == position_of(*p),
{
    Position {
        line: if p.line < 0 {
            0
        } else {
            p.line as u32
        },
        character: if p.character < 0 {
            0
        } else {
            p.character as u32
        },
    }
}

fn to_lsp_range(range: &Option<bsp::Range>) -> (r: Range)
    ensures
        r == range_of(*range),
{
    match range {
        Some(r) => Range { start: to_lsp_position(&r.start), end: to_lsp_position(&r.end) },
        None => Range {
            start: Position { line: 0, character: 0 },
            end: Position { line: 0, character: 0 },
        },
    }
}

fn to_lsp_code(code: &bsp::DiagnosticCode) -> (c: DiagnosticCode)
    ensures
        c == (match *code {
            bsp::DiagnosticCode::Integer(n) => DiagnosticCode::Integer(n),
            bsp::DiagnosticCode::String(s) => DiagnosticCode::String(s),
        }),
{
    match code {
        bsp::DiagnosticCode::Integer(n) => DiagnosticCode::Integer(*n),
        bsp::DiagnosticCode::String(s) => DiagnosticCode::String(s.clone()),
    }
}

/// The diagnostic that a build diagnostic is published as.
pub fn to_lsp_diagnostic(d: &bsp::Diagnostic) -> (published: Diagnostic)
    ensures
        published == published_as(*d),
{
    Diagnostic {
        range: to_lsp_range(&d.range),
        severity: match d.severity {
            Some(severity) => Some(to_lsp_severity(severity)),
            None => None,
        },
        code: match &d.code {
            Some(code) => Some(to_lsp_code(code)),
            None => None,
        },
        source: match &d.source {
            Some(source) => Some(source.clone()),
            None => None,
        },
        message: d.message.clone(),
    }
}

/// The diagnostics that a list of build diagnostics is published as.
pub open spec fn all_published(list: Seq<bsp::Diagnostic>) -> Seq<Diagnostic> {
    list.map_values(|d: bsp::Diagnostic| published_as(d))
}

/// A coordinate is the given one, or 0 where that is negative.
pub open spec fn clamps(coordinate: u32, given: i32) -> bool {
    &&& given >= 0 ==> coordinate == given
    &&& given < 0 ==> coordinate == 0
}

/// A diagnostic tells what a build diagnostic tells: the same message, source and code, the
/// severity where the protocol has it and information where not, and its range with 0 in
/// place of a negative coordinate, or the origin where it has no range.
pub open spec fn tells(shown: Diagnostic, d: bsp::Diagnostic) -> bool {
    &&& shown.message == d.message
    &&& shown.source == d.source
    &&& match d.severity {
        Some(n) => if n == 1 || n == 2 || n == 3 || n == 4 {
            shown.severity matches Some(severity) && severity == n
        } else {
            shown.severity == Some(3u32)
        },
        None => shown.severity is None,
    }
    &&& match d.code {
        Some(bsp::DiagnosticCode::Integer(n)) => shown.code == Some(DiagnosticCode::Integer(n)),
        Some(bsp::DiagnosticCode::String(s)) => shown.code == Some(DiagnosticCode::String(s)),
        None => shown.code is None,
    }
    &&& match d.range {
        Some(range) => {
            &&& clamps(shown.range.start.line, range.start.line)
            &&& clamps(shown.range.start.character, range.start.character)
            &&& clamps(shown.range.end.line, range.end.line)
            &&& clamps(shown.range.end.character, range.end.character)
        },
        None => {
            &&& shown.range.start.line == 0
            &&& shown.range.start.character == 0
            &&& shown.range.end.line == 0
            &&& shown.range.end.character == 0
        },
    }
}

/// Each build diagnostic is published, in order, and tells what it told.
pub proof fn law_each_published(list: Seq<bsp::Diagnostic>)
    ensures
        all_published(list).len() == list.len(),
        forall|k: int|
            0 <= k < list.len() ==> tells(#[trigger] all_published(list)[k], list[k]),
{
}

/// What the build targets reported for a file, by target, in the order in which
/// the targets first reported.
pub type Reports = Seq<(Seq<char>, Seq<Diagnostic>)>;

/// The index of a target's report, or the number of reports.
pub open spec fn report_index(reports: Reports, target: Seq<char>) -> int
    decreases reports.len(),
{
    if reports.len() == 0 || reports[0].0 == target {
        0
    } else {
        1 + report_index(reports.drop_first(), target)
    }
}

/// The reports behind one more publish of a target. A publish with `reset` takes
/// the place of what the target reported, and an empty one takes it away; without
/// it the diagnostics are added.
pub open spec fn reported(
    reports: Reports,
    target: Seq<char>,
    incoming: Seq<Diagnostic>,
    reset: bool,
) -> Reports {
    let i = report_index(reports, target);
    if i >= reports.len() {
        if reset && incoming.len() == 0 {
            reports
        } else {
            reports.push((target, incoming))
        }
    } else if !reset {
        reports.update(i, (reports[i].0, reports[i].1 + incoming))
    } else if incoming.len() == 0 {
        reports.remove(i)
    } else {
        reports.update(i, (reports[i].0, incoming))
    }
}

/// The diagnostics of all reports, one behind the other.
pub open spec fn merged(reports: Reports) -> Seq<Diagnostic>
    decreases reports.len(),
{
    if reports.len() == 0 {
        seq![]
    } else {
        merged(reports.drop_last()) + reports.last().1
    }
}

/// No target has two reports.
pub open spec fn one_per_target(reports: Reports) -> bool {
    forall|i: int, j: int|
        0 <= i < j < reports.len() ==> (#[trigger] reports[i]).0 != (#[trigger] reports[j]).0
}

/// The state of the router.
pub struct RouterV {
    /// The reports of each file.
    pub reports: Map<Seq<char>, Reports>,
    /// The files whose last publish was not empty.
    pub published: Set<Seq<char>>,
}

impl RouterV {
    /// The reports of a file.
    pub open spec fn reports_of(self, file: Seq<char>) -> Reports {
        if self.reports.contains_key(file) {
            self.reports[file]
        } else {
            seq![]
        }
    }

    /// The diagnostics that the client last got for a file.
    pub open spec fn shown(self, file: Seq<char>) -> Seq<Diagnostic> {
        merged(self.reports_of(file))
    }

    /// The files with reports are those with diagnostics, and these are the ones
    /// that the client got; a target has one report of a file.
    pub open spec fn consistent(self) -> bool {
        &&& self.reports.dom() == self.published
        &&& forall|file: Seq<char>| #[trigger]
            self.reports.contains_key(file) ==> merged(self.reports[file]).len() > 0
                && one_per_target(self.reports[file])
    }
}

/// The router behind one publish for a file, and the diagnostics that it forwards
/// for the file, if any.
pub open spec fn routed(
    router: RouterV,
    file: Seq<char>,
    target: Seq<char>,
    incoming: Seq<Diagnostic>,
    reset: bool,
) -> (RouterV, Option<Seq<Diagnostic>>) {
    let reports = reported(router.reports_of(file), target, incoming, reset);
    let all = merged(reports);
    if all.len() > 0 {
        (
            RouterV {
                reports: router.reports.insert(file, reports),
                published: router.published.insert(file),
            },
            Some(all),
        )
    } else {
        (
            RouterV {
                reports: router.reports.remove(file),
                published: router.published.remove(file),
            },
            if router.published.contains(file) {
                Some(seq![])
            } else {
                None
            },
        )
    }
}

/// Merges the build diagnostics of a file over its targets. `F` maps the URIs of
/// the build server to file URIs; without it they are file URIs already.
pub struct DiagnosticRouter<F> {
    by_uri: StrMap<Vec<(String, Vec<Diagnostic>)>>,
    published_non_empty: StrMap<()>,
    to_file_uri: Option<F>,
}

spec fn reports_view(list: Seq<(String, Vec<Diagnostic>)>) -> Reports {
    Seq::new(list.len(), |i: int| (list[i].0@, list[i].1@))
}

impl<F> View for DiagnosticRouter<F> {
    type V = RouterV;

    closed spec fn view(&self) -> RouterV {
        RouterV {
            reports: self.by_uri@.map_values(
                |list: Vec<(String, Vec<Diagnostic>)>| reports_view(list@),
            ),
            published: self.published_non_empty@.dom(),
        }
    }
}

/// A router that has not seen anything.
pub open spec fn fresh_router() -> RouterV {
    RouterV { reports: Map::empty(), published: Set::empty() }
}

fn find_report(list: &Vec<(String, Vec<Diagnostic>)>, target: &str) -> (index: usize)
    ensures
        index == report_index(reports_view(list@), target@),
        index <= list@.len(),
{
    let ghost all = reports_view(list@);
    let mut i: usize = 0;
    assert(all.skip(0) =~= all);
    while i < list.len() && !text::same_text(list[i].0.as_str(), target)
        invariant
            i <= list@.len(),
            all == reports_view(list@),
            report_index(all, target@) == i + report_index(all.skip(i as int), target@),
        decreases list.len() - i,
    {
        assert(all.skip(i as int).drop_first() =~= all.skip(i + 1));
        i += 1;
    }
    i
}

fn append_all(list: &mut Vec<Diagnostic>, more: &Vec<Diagnostic>)
    ensures
        final(list)@ == old(list)@ + more@,
{
    let ghost before = list@;
    let mut i: usize = 0;
    while i < more.len()
        invariant
            i <= more@.len(),
            list@ == before + more@.take(i as int),
        decreases more.len() - i,
    {
        list.push(more[i].clone());
        i += 1;
        assert(list@ =~= before + more@.take(i as int));
    }
    assert(more@.take(i as int) =~= more@);
}

fn merge(list: &Vec<(String, Vec<Diagnostic>)>) -> (all: Vec<Diagnostic>)
    ensures
        all@ == merged(reports_view(list@)),
{
    let ghost reports = reports_view(list@);
    let mut all: Vec<Diagnostic> = Vec::new();
    let mut i: usize = 0;
    assert(reports.take(0) =~= seq![]);
    while i < list.len()
        invariant
            i <= list@.len(),
            reports == reports_view(list@),
            all@ == merged(reports.take(i as int)),
        decreases list.len() - i,
    {
        append_all(&mut all, &list[i].1);
        i += 1;
        assert(reports.take(i as int).drop_last() =~= reports.take(i - 1));
    }
    assert(reports.take(i as int) =~= reports);
    all
}

/// Adds a publish to the reports of a file.
fn report(
    list: &mut Vec<(String, Vec<Diagnostic>)>,
    target: String,
    incoming: Vec<Diagnostic>,
    reset: bool,
)
    ensures
        reports_view(final(list)@) == reported(
            reports_view(old(list)@),
            target@,
            incoming@,
            reset,
        ),
{
    let ghost before = reports_view(list@);
    let i = find_report(list, target.as_str());
    if i >= list.len() {
        if !(reset && incoming.len() == 0) {
            list.push((target, incoming));
            assert(reports_view(list@) =~= before.push((target@, incoming@)));
        }
        return;
    }
    let (name, mut diagnostics) = list.remove(i);
    let ghost rest = list@;
    if reset {
        if incoming.len() == 0 {
            assert(reports_view(list@) =~= before.remove(i as int));
            return;
        }
        diagnostics = incoming;
    } else {
        append_all(&mut diagnostics, &incoming);
    }
    list.insert(i, (name, diagnostics));
    assert(reports_view(list@) =~= before.update(i as int, (name@, diagnostics@)));
}

fn copy_reports(list: &Vec<(String, Vec<Diagnostic>)>) -> (copy: Vec<(String, Vec<Diagnostic>)>)
    ensures
        reports_view(copy@) == reports_view(list@),
{
    let mut copy: Vec<(String, Vec<Diagnostic>)> = Vec::new();
    let ghost all = reports_view(list@);
    let mut i: usize = 0;
    assert(reports_view(copy@) =~= all.take(0));
    while i < list.len()
        invariant
            i <= list@.len(),
            all == reports_view(list@),
            reports_view(copy@) == all.take(i as int),
        decreases list.len() - i,
    {
        let mut diagnostics: Vec<Diagnostic> = Vec::new();
        append_all(&mut diagnostics, &list[i].1);
        let ghost before = reports_view(copy@);
        assert(diagnostics@ =~= list@[i as int].1@);
        copy.push((list[i].0.clone(), diagnostics));
        i += 1;
        assert(reports_view(copy@) =~= before.push(all[i - 1]));
        assert(all.take(i as int) =~= all.take(i - 1).push(all[i - 1]));
    }
    assert(all.take(i as int) =~= all);
    copy
}

impl<F: Fn(&str) -> String> DiagnosticRouter<F> {
    /// The mapper takes any URI.
    pub closed spec fn callable(self) -> bool {
        self.to_file_uri matches Some(f) ==> forall|uri: &str| f.requires((uri,))
    }

    /// The mapper may map a URI to `file`.
    pub closed spec fn maps(self, uri: Seq<char>, file: Seq<char>) -> bool {
        match self.to_file_uri {
            None => file == uri,
            Some(f) => exists|key: &str, mapped: String| #[trigger]
                f.ensures((key,), mapped) && key@ == uri && mapped@ == file,
        }
    }

    /// A router of file URIs.
    pub fn new() -> (router: Self)
        ensures
            router@ == fresh_router(),
            router.callable(),
            forall|uri: Seq<char>, file: Seq<char>| #[trigger]
                router.maps(uri, file) ==> file == uri,
    {
        let router = DiagnosticRouter {
            by_uri: StrMap::new(),
            published_non_empty: StrMap::new(),
            to_file_uri: None,
        };
        assert(router@.reports =~= fresh_router().reports);
        assert(router@.published =~= fresh_router().published);
        router
    }

    /// A router that maps the URIs of the build server before it publishes.
    pub fn with_uri_mapper(to_file_uri: F) -> (router: Self)
        requires
            forall|uri: &str| to_file_uri.requires((uri,)),
        ensures
            router@ == fresh_router(),
            router.callable(),
            forall|uri: Seq<char>, file: Seq<char>| #[trigger]
                router.maps(uri, file) ==> exists|key: &str, mapped: String| #[trigger]
                    to_file_uri.ensures((key,), mapped) && key@ == uri && mapped@ == file,
    {
        let router = DiagnosticRouter {
            by_uri: StrMap::new(),
            published_non_empty: StrMap::new(),
            to_file_uri: Some(to_file_uri),
        };
        assert(router@.reports =~= fresh_router().reports);
        assert(router@.published =~= fresh_router().published);
        router
    }

    /// Takes one publish of the build server and returns the publish for the
    /// client, unless there is nothing to tell: a file is cleared once, and a file
    /// that was never shown is not cleared at all.
    pub fn accept(&mut self, params: &bsp::PublishDiagnosticsParams) -> (publish: Option<
        PublishDiagnosticsParams,
    >)
        requires
            old(self).callable(),
        ensures
            final(self).callable(),
            forall|uri: Seq<char>, file: Seq<char>| #[trigger]
                final(self).maps(uri, file) == old(self).maps(uri, file),
            exists|file: Seq<char>| #[trigger]
                old(self).maps(params.text_document.uri@, file) && ({
                    let target = match params.build_target {
                        Some(target) => target.uri@,
                        None => Seq::<char>::empty(),
                    };
                    let incoming = all_published(params.diagnostics@);
                    let (after, forwarded) = routed(
                        old(self)@,
                        file,
                        target,
                        incoming,
                        params.reset,
                    );
                    &&& final(self)@ == after
                    &&& publish is Some <==> forwarded is Some
                    &&& publish matches Some(p) ==> p.uri@ == file && Some(p.diagnostics@)
                        == forwarded
                }),
    {
        let file_uri: String = match &self.to_file_uri {
            None => params.text_document.uri.clone(),
            Some(mapper) => mapper(params.text_document.uri.as_str()),
        };
        let ghost file = file_uri@;
        assert(old(self).maps(params.text_document.uri@, file));
        let target: String = match &params.build_target {
            Some(target) => target.uri.clone(),
            None => String::new(),
        };
        let ghost converted = all_published(params.diagnostics@);
        let mut incoming: Vec<Diagnostic> = Vec::new();
        let mut i: usize = 0;
        while i < params.diagnostics.len()
            invariant
                i <= params.diagnostics@.len(),
                converted == all_published(params.diagnostics@),
                incoming@ == converted.take(i as int),
            decreases params.diagnostics.len() - i,
        {
            incoming.push(to_lsp_diagnostic(&params.diagnostics[i]));
            i += 1;
            assert(incoming@ =~= converted.take(i as int));
        }
        assert(converted.take(i as int) =~= converted);
        let mut reports: Vec<(String, Vec<Diagnostic>)> = match self.by_uri.get(file_uri.as_str()) {
            Some(list) => copy_reports(list),
            None => Vec::new(),
        };
        assert(reports_view(reports@) =~= old(self)@.reports_of(file));
        report(&mut reports, target, incoming, params.reset);
        let all = merge(&reports);
        let ghost views = |list: Vec<(String, Vec<Diagnostic>)>| reports_view(list@);
        if all.len() > 0 {
            let ghost kept = reports_view(reports@);
            self.by_uri.insert(file_uri.clone(), reports);
            self.published_non_empty.insert(file_uri.clone(), ());
            assert(self@.reports =~= old(self)@.reports.insert(file, kept));
            assert(self@.published =~= old(self)@.published.insert(file));
            Some(PublishDiagnosticsParams { uri: file_uri, diagnostics: all })
        } else {
            self.by_uri.remove(file_uri.as_str());
            let shown = self.published_non_empty.remove(file_uri.as_str());
            assert(self@.reports =~= old(self)@.reports.remove(file));
            assert(self@.published =~= old(self)@.published.remove(file));
            if shown.is_some() {
                let empty: Vec<Diagnostic> = Vec::new();
                assert(empty@ =~= seq![]);
                Some(PublishDiagnosticsParams { uri: file_uri, diagnostics: empty })
            } else {
                None
            }
        }
    }
}

/// Every publish keeps the router consistent, and a fresh one is.
pub proof fn law_router_consistent(
    router: RouterV,
    file: Seq<char>,
    target: Seq<char>,
    incoming: Seq<Diagnostic>,
    reset: bool,
)
    ensures
        fresh_router().consistent(),
        router.consistent() ==> routed(router, file, target, incoming, reset).0.consistent(),
{
    assert(fresh_router().reports.dom() =~= fresh_router().published);
    let after = routed(router, file, target, incoming, reset).0;
    if router.consistent() {
        assert(after.reports.dom() =~= after.published);
        assert forall|f: Seq<char>| #[trigger] after.reports.contains_key(f) implies merged(
            after.reports[f],
        ).len() > 0 && one_per_target(after.reports[f]) by {
            if f != file {
                assert(router.reports.contains_key(f));
            } else {
                lemma_one_per_target(router.reports_of(file), target, incoming, reset);
            }
        }
    }
}

/// A publish for one file leaves every other file as it was.
pub proof fn law_other_files_untouched(
    router: RouterV,
    file: Seq<char>,
    target: Seq<char>,
    incoming: Seq<Diagnostic>,
    reset: bool,
    other: Seq<char>,
)
    requires
        other != file,
    ensures
        ({
            let after = routed(router, file, target, incoming, reset).0;
            &&& after.reports_of(other) == router.reports_of(other)
            &&& after.published.contains(other) == router.published.contains(other)
        }),
{
}

/// The client always gets the whole of what the targets of a file report, and
/// nothing exactly when the file had no diagnostics and has none.
pub proof fn law_forwarded_is_shown(
    router: RouterV,
    file: Seq<char>,
    target: Seq<char>,
    incoming: Seq<Diagnostic>,
    reset: bool,
)
    requires
        router.consistent(),
    ensures
        ({
            let (after, forwarded) = routed(router, file, target, incoming, reset);
            &&& forwarded matches Some(all) ==> all == after.shown(file)
            &&& forwarded is None <==> router.shown(file).len() == 0 && after.shown(file).len()
                == 0
        }),
{
    let (after, forwarded) = routed(router, file, target, incoming, reset);
    assert(merged(seq![]) =~= seq![]);
    if router.reports.contains_key(file) {
        assert(router.reports.dom().contains(file));
    } else {
        assert(!router.reports.dom().contains(file));
    }
}

/// A file is cleared once: clearing it again tells the client nothing.
pub proof fn law_cleared_once(
    router: RouterV,
    file: Seq<char>,
    target: Seq<char>,
    other_target: Seq<char>,
)
    requires
        router.consistent(),
        routed(router, file, target, seq![], true).0.shown(file).len() == 0,
    ensures
        ({
            let after = routed(router, file, target, seq![], true).0;
            &&& routed(after, file, other_target, seq![], true).1 is None
            &&& routed(after, file, other_target, seq![], true).0 == after
        }),
{
    let after = routed(router, file, target, seq![], true).0;
    law_router_consistent(router, file, target, seq![], true);
    assert(!after.reports.contains_key(file)) by {
        if after.reports.contains_key(file) {
            assert(merged(after.reports[file]).len() > 0);
        }
    }
    assert(!after.reports.dom().contains(file));
    assert(merged(seq![]) =~= seq![]);
    assert(after.reports.remove(file) =~= after.reports);
    assert(after.published.remove(file) =~= after.published);
}

/// What one target publishes leaves the reports of the others as they were, in
/// their order.
pub proof fn law_siblings_kept(
    reports: Reports,
    target: Seq<char>,
    incoming: Seq<Diagnostic>,
    reset: bool,
)
    requires
        one_per_target(reports),
    ensures
        without(reported(reports, target, incoming, reset), target) == without(reports, target),
{
    let i = report_index(reports, target);
    let after = reported(reports, target, incoming, reset);
    lemma_report_index(reports, target);
    lemma_report_index(after, target);
    let k = report_index(after, target);
    if i >= reports.len() {
        if k < reports.len() {
            assert(reports[k] == after[k]);
        }
        if after.len() > reports.len() {
            assert(after[reports.len() as int].0 == target);
            assert(after.remove(reports.len() as int) =~= reports);
        }
    } else if reset && incoming.len() == 0 {
        if k < after.len() {
            assert(after[k] == reports[if k < i {
                k
            } else {
                k + 1
            }]);
        }
    } else {
        assert(after[i].0 == target);
        if k < i {
            assert(after[k] == reports[k]);
        }
        assert(after.remove(i) =~= reports.remove(i));
    }
}

/// A target reports nothing.
pub open spec fn silent(reports: Reports, target: Seq<char>) -> bool {
    forall|k: int| 0 <= k < reports.len() ==> (#[trigger] reports[k]).0 != target
}

/// A publish is kept whole. With `reset` the report of the target becomes the incoming list,
/// or goes where that is empty; without it the incoming list stands behind what the target
/// reported before, and is its report where it reported nothing. A target still has one
/// report, and every other target the one it had.
pub proof fn law_publish_kept_whole(
    reports: Reports,
    target: Seq<char>,
    incoming: Seq<Diagnostic>,
    reset: bool,
)
    requires
        one_per_target(reports),
    ensures
        one_per_target(reported(reports, target, incoming, reset)),
        reset && incoming.len() > 0 ==> reported(reports, target, incoming, reset).contains(
            (target, incoming),
        ),
        reset && incoming.len() == 0 ==> silent(
            reported(reports, target, incoming, reset),
            target,
        ),
        !reset && silent(reports, target) ==> reported(reports, target, incoming, reset).contains(
            (target, incoming),
        ),
        !reset ==> forall|before: Seq<Diagnostic>| #[trigger]
            reports.contains((target, before)) ==> reported(
                reports,
                target,
                incoming,
                reset,
            ).contains((target, before + incoming)),
        forall|other: Seq<char>, theirs: Seq<Diagnostic>|
            other != target ==> (#[trigger] reported(reports, target, incoming, reset).contains(
                (other, theirs),
            ) <==> reports.contains((other, theirs))),
{
    let i = report_index(reports, target);
    let after = reported(reports, target, incoming, reset);
    lemma_report_index(reports, target);
    lemma_one_per_target(reports, target, incoming, reset);
    if i >= reports.len() {
        assert(!(reset && incoming.len() == 0) ==> after[reports.len() as int] == (
            target,
            incoming,
        ));
    } else if !reset {
        assert(after[i] == (target, reports[i].1 + incoming));
        assert(reports[i].0 == target);
    } else if incoming.len() == 0 {
        assert forall|k: int| 0 <= k < after.len() implies (#[trigger] after[k]).0 != target by {
            let b = if k < i {
                k
            } else {
                k + 1
            };
            assert(after[k] == reports[b]);
        }
    } else {
        assert(after[i] == (target, incoming));
    }
    if !reset {
        assert forall|before: Seq<Diagnostic>| #[trigger]
            reports.contains((target, before)) implies after.contains(
            (target, before + incoming),
        ) by {
            let k = reports.index_of((target, before));
            assert(reports[k].0 == target);
            assert(k == i);
        }
    }
    assert forall|other: Seq<char>, theirs: Seq<Diagnostic>| other != target implies (
    #[trigger] after.contains((other, theirs)) <==> reports.contains((other, theirs))) by {
        if after.contains((other, theirs)) {
            let k = after.index_of((other, theirs));
            if i < reports.len() && reset && incoming.len() == 0 && k >= i {
                assert(reports[k + 1] == (other, theirs));
            } else {
                assert(reports[k] == (other, theirs));
            }
        }
        if reports.contains((other, theirs)) {
            let k = reports.index_of((other, theirs));
            if i < reports.len() && reset && incoming.len() == 0 && k > i {
                assert(after[k - 1] == (other, theirs));
            } else {
                assert(after[k] == (other, theirs));
            }
        }
    }
}

/// A list holds the given diagnostics without a gap, in their order.
pub open spec fn holds_run(list: Seq<Diagnostic>, run: Seq<Diagnostic>) -> bool {
    exists|at: int|
        0 <= at && at + run.len() <= list.len() && #[trigger] list.subrange(at, at + run.len())
            == run
}

/// How many diagnostics all reports have.
pub open spec fn diagnostic_count(reports: Reports) -> nat
    decreases reports.len(),
{
    if reports.len() == 0 {
        0
    } else {
        diagnostic_count(reports.drop_last()) + reports.last().1.len()
    }
}

/// What the client is shown of a file holds the whole report of each target, in the order in
/// which the target gave it, and nothing else.
pub proof fn law_merged_whole(reports: Reports)
    ensures
        merged(reports).len() == diagnostic_count(reports),
        forall|k: int|
            0 <= k < reports.len() ==> holds_run(merged(reports), (#[trigger] reports[k]).1),
        forall|d: Diagnostic| #[trigger]
            merged(reports).contains(d) ==> exists|k: int|
                0 <= k < reports.len() && (#[trigger] reports[k]).1.contains(d),
    decreases reports.len(),
{
    if reports.len() > 0 {
        let earlier = reports.drop_last();
        law_merged_whole(earlier);
        let all = merged(reports);
        let before = merged(earlier);
        let added = reports.last().1;
        assert forall|k: int| 0 <= k < reports.len() implies holds_run(
            all,
            (#[trigger] reports[k]).1,
        ) by {
            let run = reports[k].1;
            if k < earlier.len() {
                assert(earlier[k] == reports[k]);
                let at = choose|at: int|
                    0 <= at && at + run.len() <= before.len() && #[trigger] before.subrange(
                        at,
                        at + run.len(),
                    ) == run;
                assert(all.subrange(at, at + run.len()) =~= before.subrange(at, at + run.len()));
            } else {
                let at = before.len() as int;
                assert(all.subrange(at, at + run.len()) =~= run);
            }
        }
        assert forall|d: Diagnostic| #[trigger] all.contains(d) implies exists|k: int|
            0 <= k < reports.len() && (#[trigger] reports[k]).1.contains(d) by {
            let n = all.index_of(d);
            if n < before.len() {
                assert(before[n] == d);
                assert(before.contains(d));
                let k = choose|k: int|
                    0 <= k < earlier.len() && (#[trigger] earlier[k]).1.contains(d);
                assert(reports[k].1.contains(d));
            } else {
                assert(added[n - before.len()] == d);
                assert(reports[reports.len() - 1].1.contains(d));
            }
        }
    }
}

/// What a target publishes reaches the client: the publish that is forwarded holds all of its
/// diagnostics, in their order.
pub proof fn law_incoming_forwarded(
    router: RouterV,
    file: Seq<char>,
    target: Seq<char>,
    list: Seq<bsp::Diagnostic>,
    reset: bool,
)
    requires
        router.consistent(),
        list.len() > 0,
    ensures
        ({
            let (after, forwarded) = routed(router, file, target, all_published(list), reset);
            &&& forwarded == Some(after.shown(file))
            &&& exists|at: int| #[trigger] tells_all(after.shown(file), at, list)
        }),
{
    let incoming = all_published(list);
    let reports = router.reports_of(file);
    let after = reported(reports, target, incoming, reset);
    assert(one_per_target(reports));
    law_publish_kept_whole(reports, target, incoming, reset);
    law_merged_whole(after);
    law_each_published(list);
    let all = merged(after);
    if reset || silent(reports, target) {
        let k = after.index_of((target, incoming));
        assert(holds_run(all, after[k].1));
        let at = choose|at: int|
            0 <= at && at + incoming.len() <= all.len() && #[trigger] all.subrange(
                at,
                at + incoming.len(),
            ) == incoming;
        assert forall|n: int| 0 <= n < list.len() implies tells(
            all[at + n],
            #[trigger] list[n],
        ) by {
            assert(all[at + n] == all.subrange(at, at + incoming.len())[n]);
        }
        assert(tells_all(all, at, list));
    } else {
        let b = choose|b: int| 0 <= b < reports.len() && (#[trigger] reports[b]).0 == target;
        let before = reports[b].1;
        assert(reports.contains((target, before)));
        let whole = before + incoming;
        let k = after.index_of((target, whole));
        assert(holds_run(all, after[k].1));
        let start = choose|at: int|
            0 <= at && at + whole.len() <= all.len() && #[trigger] all.subrange(
                at,
                at + whole.len(),
            ) == whole;
        let at = start + before.len();
        assert forall|n: int| 0 <= n < list.len() implies tells(
            all[at + n],
            #[trigger] list[n],
        ) by {
            assert(all[at + n] == all.subrange(start, start + whole.len())[before.len() + n]);
        }
        assert(tells_all(all, at, list));
    }
    assert(all.len() > 0);
    assert(routed(router, file, target, incoming, reset).0.shown(file) == all);
}

/// From an index on, diagnostics tell what a list of build diagnostics tells.
pub open spec fn tells_all(all: Seq<Diagnostic>, at: int, list: Seq<bsp::Diagnostic>) -> bool {
    &&& 0 <= at && at + list.len() <= all.len()
    &&& forall|n: int| 0 <= n < list.len() ==> tells(all[at + n], #[trigger] list[n])
}

/// One more publish leaves each target with one report.
proof fn lemma_one_per_target(
    reports: Reports,
    target: Seq<char>,
    incoming: Seq<Diagnostic>,
    reset: bool,
)
    requires
        one_per_target(reports),
    ensures
        one_per_target(reported(reports, target, incoming, reset)),
{
    let i = report_index(reports, target);
    let after = reported(reports, target, incoming, reset);
    lemma_report_index(reports, target);
    assert forall|x: int, y: int| 0 <= x < y < after.len() implies (#[trigger] after[x]).0 != (
    #[trigger] after[y]).0 by {
        if i < reports.len() && reset && incoming.len() == 0 {
            let bx = if x < i {
                x
            } else {
                x + 1
            };
            let by = if y < i {
                y
            } else {
                y + 1
            };
            assert(after[x] == reports[bx] && after[y] == reports[by]);
        } else if i < reports.len() {
            assert(after[x].0 == reports[x].0 && after[y].0 == reports[y].0);
        } else {
            assert(after[x] == reports[x]);
        }
    }
}

/// The reports without the one of a target.
pub open spec fn without(reports: Reports, target: Seq<char>) -> Reports {
    let i = report_index(reports, target);
    if i < reports.len() {
        reports.remove(i)
    } else {
        reports
    }
}

proof fn lemma_report_index(reports: Reports, target: Seq<char>)
    ensures
        0 <= report_index(reports, target) <= reports.len(),
        forall|j: int| 0 <= j < report_index(reports, target) ==> (#[trigger] reports[j]).0
            != target,
        report_index(reports, target) < reports.len() ==> reports[report_index(
            reports,
            target,
        )].0 == target,
    decreases reports.len(),
{
    if reports.len() > 0 && reports[0].0 != target {
        let rest = reports.drop_first();
        lemma_report_index(rest, target);
        assert forall|j: int| 0 <= j < report_index(reports, target) implies (
        #[trigger] reports[j]).0 != target by {
            if j > 0 {
                assert(rest[j - 1] == reports[j]);
            }
        }
    }
}

} // verus!
