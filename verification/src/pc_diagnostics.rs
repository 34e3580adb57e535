//! Diagnostics of the presentation compiler: the layer that merges them with the
//! build's, and the debounced pulls that feed it.
//!
//! Build diagnostics stay primary. A publish replaces everything that a client
//! shows for a file, so the layer remembers the last set of each kind and always
//! publishes both, the build's first. A publish of the build drops the typing
//! diagnostics of the file, and a file is cleared once.

use vstd::prelude::*;
use vstd::string::*;

use crate::order;
use crate::pc_abi::PcDiagnostic;
use crate::pc_lsp;
use crate::protocol::{Diagnostic, DiagnosticCode, PublishDiagnosticsParams};
use crate::strmap::StrMap;
use crate::text;

verus! {

/// The source of every diagnostic of the presentation compiler.
pub const PC_DIAGNOSTICS_SOURCE: &'static str = "scala3-pc (typing)";

/// The time from a change to its pull, in nanoseconds.
pub const PC_DIAGNOSTICS_DEBOUNCE: u64 = 300000000;

/// `published` is how a diagnostic of the presentation compiler is published.
pub open spec fn published_as(d: PcDiagnostic, published: Diagnostic) -> bool {
    &&& published.range == pc_lsp::range_of(d.range)
    &&& published.severity == (if 1 <= d.severity <= 4 {
        Some(d.severity as u32)
    } else {
        None
    })
    &&& published.code == (if d.code@.len() == 0 {
        None
    } else {
        Some(DiagnosticCode::String(d.code))
    })
    &&& published.source matches Some(source) && source@ == PC_DIAGNOSTICS_SOURCE@
    &&& published.message == d.message
}

/// The published form of a diagnostic of the presentation compiler.
pub fn to_lsp_diagnostic(d: &PcDiagnostic) -> (published: Diagnostic)
    ensures
        published_as(*d, published),
{
    Diagnostic {
        range: pc_lsp::lsp_range(&d.range),
        severity: if 1 <= d.severity && d.severity <= 4 {
            Some(d.severity as u32)
        } else {
            None
        },
        code: if text::chars_of(d.code.as_str()).len() == 0 {
            None
        } else {
            Some(DiagnosticCode::String(d.code.clone()))
        },
        source: Some(PC_DIAGNOSTICS_SOURCE.to_owned()),
        message: d.message.clone(),
    }
}

/// `published` is how a list of diagnostics is published.
pub open spec fn all_published_as(list: Seq<PcDiagnostic>, published: Seq<Diagnostic>) -> bool {
    &&& published.len() == list.len()
    &&& forall|i: int| 0 <= i < list.len() ==> published_as(list[i], #[trigger] published[i])
}

/// Converts a list of diagnostics.
pub fn to_lsp_diagnostics(list: &Vec<PcDiagnostic>) -> (published: Vec<Diagnostic>)
    ensures
        all_published_as(list@, published@),
{
    let mut published: Vec<Diagnostic> = Vec::new();
    let mut i: usize = 0;
    while i < list.len()
        invariant
            i <= list@.len(),
            published@.len() == i,
            forall|j: int| 0 <= j < i ==> published_as(list@[j], #[trigger] published@[j]),
        decreases list.len() - i,
    {
        published.push(to_lsp_diagnostic(&list[i]));
        i += 1;
    }
    published
}

/// The state of the layer.
pub struct LayerV {
    /// The last build diagnostics of each file that has any.
    pub bsp: Map<Seq<char>, Seq<Diagnostic>>,
    /// The typing diagnostics of each file that has any.
    pub pc: Map<Seq<char>, Seq<Diagnostic>>,
    /// The files whose last publish was not empty.
    pub published: Set<Seq<char>>,
    /// Whether publishes go anywhere.
    pub connected: bool,
}

/// What a map holds for a file.
pub open spec fn of(map: Map<Seq<char>, Seq<Diagnostic>>, uri: Seq<char>) -> Seq<Diagnostic> {
    if map.contains_key(uri) {
        map[uri]
    } else {
        seq![]
    }
}

/// A map with a new entry for a file, or without one where the entry is empty.
pub open spec fn put(
    map: Map<Seq<char>, Seq<Diagnostic>>,
    uri: Seq<char>,
    list: Seq<Diagnostic>,
) -> Map<Seq<char>, Seq<Diagnostic>> {
    if list.len() == 0 {
        map.remove(uri)
    } else {
        map.insert(uri, list)
    }
}

impl LayerV {
    /// The diagnostics of a file: the build's, and the typing ones behind them.
    pub open spec fn shown(self, uri: Seq<char>) -> Seq<Diagnostic> {
        of(self.bsp, uri) + of(self.pc, uri)
    }

    /// The maps hold no empty lists, and the client has diagnostics of exactly the
    /// files that have some.
    pub open spec fn consistent(self) -> bool {
        &&& forall|uri: Seq<char>| #[trigger]
            self.bsp.contains_key(uri) ==> self.bsp[uri].len() > 0
        &&& forall|uri: Seq<char>| #[trigger] self.pc.contains_key(uri) ==> self.pc[uri].len() > 0
        &&& forall|uri: Seq<char>| #[trigger]
            self.published.contains(uri) <==> self.shown(uri).len() > 0
    }
}

/// The layer behind the publish of a file, and what is published: everything the
/// file has, or nothing where it had and has nothing.
pub open spec fn emitted(layer: LayerV, uri: Seq<char>) -> (LayerV, Option<Seq<Diagnostic>>) {
    let all = layer.shown(uri);
    if all.len() > 0 {
        (
            LayerV { published: layer.published.insert(uri), ..layer },
            if layer.connected {
                Some(all)
            } else {
                None
            },
        )
    } else {
        (
            LayerV { published: layer.published.remove(uri), ..layer },
            if layer.connected && layer.published.contains(uri) {
                Some(all)
            } else {
                None
            },
        )
    }
}

/// The layer behind a publish of the build.
pub open spec fn with_bsp(layer: LayerV, uri: Seq<char>, list: Seq<Diagnostic>) -> (
    LayerV,
    Option<Seq<Diagnostic>>,
) {
    emitted(
        LayerV { bsp: put(layer.bsp, uri, list), pc: layer.pc.remove(uri), ..layer },
        uri,
    )
}

/// The layer behind a pull. An empty pull of a file without typing diagnostics
/// changes and publishes nothing.
pub open spec fn with_pc(layer: LayerV, uri: Seq<char>, list: Seq<Diagnostic>) -> (
    LayerV,
    Option<Seq<Diagnostic>>,
) {
    if list.len() == 0 && !layer.pc.contains_key(uri) {
        (layer, None)
    } else {
        emitted(LayerV { pc: put(layer.pc, uri, list), ..layer }, uri)
    }
}

/// `publish` is the publish of a list for a file, if there is one.
pub open spec fn publishes(
    publish: Option<PublishDiagnosticsParams>,
    uri: Seq<char>,
    list: Option<Seq<Diagnostic>>,
) -> bool {
    match publish {
        Some(p) => p.uri@ == uri && list == Some(p.diagnostics@),
        None => list is None,
    }
}

/// Merges build and typing diagnostics.
pub struct PcDiagnosticsLayer {
    bsp: StrMap<Vec<Diagnostic>>,
    pc: StrMap<Vec<Diagnostic>>,
    published_non_empty: StrMap<()>,
    connected: bool,
}

impl View for PcDiagnosticsLayer {
    type V = LayerV;

    closed spec fn view(&self) -> LayerV {
        LayerV {
            bsp: self.bsp@.map_values(|list: Vec<Diagnostic>| list@),
            pc: self.pc@.map_values(|list: Vec<Diagnostic>| list@),
            published: self.published_non_empty@.dom(),
            connected: self.connected,
        }
    }
}

/// A layer that has not seen anything.
pub open spec fn fresh_layer(connected: bool) -> LayerV {
    LayerV { bsp: Map::empty(), pc: Map::empty(), published: Set::empty(), connected }
}

fn copy_into(list: &mut Vec<Diagnostic>, more: &Vec<Diagnostic>)
    ensures
        final(list)@ == old(list)@ + more@,
{
    let ghost before = list@;
    let mut i: usize = 0;
    while i < more.len()
        invariant
            i <= more@.len(),
            list@ == before + more@.take(i as int),
        decreases more.len() - i,
    {
        list.push(more[i].clone());
        i += 1;
        assert(list@ =~= before + more@.take(i as int));
    }
    assert(more@.take(i as int) =~= more@);
}

impl PcDiagnosticsLayer {
    /// A layer whose publishes go to the client.
    pub fn new() -> (layer: PcDiagnosticsLayer)
        ensures
            layer@ == fresh_layer(true),
    {
        let layer = PcDiagnosticsLayer {
            bsp: StrMap::new(),
            pc: StrMap::new(),
            published_non_empty: StrMap::new(),
            connected: true,
        };
        assert(layer@.bsp =~= fresh_layer(true).bsp);
        assert(layer@.pc =~= fresh_layer(true).pc);
        assert(layer@.published =~= fresh_layer(true).published);
        layer
    }

    /// A layer whose publishes go nowhere.
    pub fn disconnected() -> (layer: PcDiagnosticsLayer)
        ensures
            layer@ == fresh_layer(false),
    {
        let layer = PcDiagnosticsLayer {
            bsp: StrMap::new(),
            pc: StrMap::new(),
            published_non_empty: StrMap::new(),
            connected: false,
        };
        assert(layer@.bsp =~= fresh_layer(false).bsp);
        assert(layer@.pc =~= fresh_layer(false).pc);
        assert(layer@.published =~= fresh_layer(false).published);
        layer
    }

    /// Takes a publish of the build: its diagnostics replace the file's, the typing
    /// ones are dropped, and the result is the publish for the client.
    pub fn bsp_published(&mut self, publish: PublishDiagnosticsParams) -> (forwarded: Option<
        PublishDiagnosticsParams,
    >)
        ensures
            ({
                let (after, list) = with_bsp(old(self)@, publish.uri@, publish.diagnostics@);
                final(self)@ == after && publishes(forwarded, publish.uri@, list)
            }),
    {
        let uri = publish.uri;
        let ghost list = publish.diagnostics@;
        if publish.diagnostics.len() == 0 {
            self.bsp.remove(uri.as_str());
        } else {
            self.bsp.insert(uri.clone(), publish.diagnostics);
        }
        self.pc.remove(uri.as_str());
        assert(self@.bsp =~= put(old(self)@.bsp, uri@, list));
        assert(self@.pc =~= old(self)@.pc.remove(uri@));
        self.emit(uri.as_str())
    }

    /// Takes the result of a pull: it replaces the typing diagnostics of the file,
    /// and the result is the publish for the client.
    pub fn set_pc(&mut self, uri: &str, diagnostics: Vec<Diagnostic>) -> (forwarded: Option<
        PublishDiagnosticsParams,
    >)
        ensures
            ({
                let (after, list) = with_pc(old(self)@, uri@, diagnostics@);
                final(self)@ == after && publishes(forwarded, uri@, list)
            }),
    {
        let ghost list = diagnostics@;
        if diagnostics.len() == 0 {
            let had = self.pc.remove(uri);
            if had.is_none() {
                assert(self@.pc =~= old(self)@.pc);
                return None;
            }
        } else {
            self.pc.insert(uri.to_owned(), diagnostics);
        }
        assert(self@.pc =~= put(old(self)@.pc, uri@, list));
        self.emit(uri)
    }

    /// Drops the typing diagnostics of a file.
    pub fn clear_pc(&mut self, uri: &str) -> (forwarded: Option<PublishDiagnosticsParams>)
        ensures
            ({
                let (after, list) = with_pc(old(self)@, uri@, seq![]);
                final(self)@ == after && publishes(forwarded, uri@, list)
            }),
    {
        let nothing: Vec<Diagnostic> = Vec::new();
        assert(nothing@ =~= seq![]);
        self.set_pc(uri, nothing)
    }

    /// Publishes everything that a file has.
    fn emit(&mut self, uri: &str) -> (forwarded: Option<PublishDiagnosticsParams>)
        ensures
            ({
                let (after, list) = emitted(old(self)@, uri@);
                final(self)@ == after && publishes(forwarded, uri@, list)
            }),
    {
        let mut all: Vec<Diagnostic> = Vec::new();
        match self.bsp.get(uri) {
            Some(list) => {
                copy_into(&mut all, list);
            },
            None => {},
        }
        assert(all@ =~= of(self@.bsp, uri@));
        match self.pc.get(uri) {
            Some(list) => {
                copy_into(&mut all, list);
            },
            None => {},
        }
        assert(all@ =~= old(self)@.shown(uri@));
        if all.len() > 0 {
            self.published_non_empty.insert(uri.to_owned(), ());
            assert(self@.published =~= old(self)@.published.insert(uri@));
        } else {
            let had = self.published_non_empty.remove(uri);
            assert(self@.published =~= old(self)@.published.remove(uri@));
            if had.is_none() {
                return None;
            }
        }
        if self.connected {
            Some(PublishDiagnosticsParams { uri: uri.to_owned(), diagnostics: all })
        } else {
            None
        }
    }
}

proof fn lemma_emit_consistent(layer: LayerV, uri: Seq<char>)
    requires
        forall|u: Seq<char>| #[trigger] layer.bsp.contains_key(u) ==> layer.bsp[u].len() > 0,
        forall|u: Seq<char>| #[trigger] layer.pc.contains_key(u) ==> layer.pc[u].len() > 0,
        forall|u: Seq<char>|
            u != uri ==> (#[trigger] layer.published.contains(u) <==> layer.shown(u).len() > 0),
    ensures
        emitted(layer, uri).0.consistent(),
{
    let after = emitted(layer, uri).0;
    assert forall|u: Seq<char>| #[trigger] after.published.contains(u) <==> after.shown(u).len()
        > 0 by {
        assert(after.shown(u) == layer.shown(u));
        if u != uri {
            assert(after.published.contains(u) == layer.published.contains(u));
        }
    }
}

/// Every publish of the build and every pull keep the layer consistent, and a fresh
/// one is.
pub proof fn law_layer_consistent(layer: LayerV, uri: Seq<char>, list: Seq<Diagnostic>)
    requires
        layer.consistent(),
    ensures
        fresh_layer(layer.connected).consistent(),
        with_bsp(layer, uri, list).0.consistent(),
        with_pc(layer, uri, list).0.consistent(),
{
    let fresh = fresh_layer(layer.connected);
    assert forall|u: Seq<char>| #[trigger] fresh.published.contains(u) <==> fresh.shown(u).len()
        > 0 by {
        assert(fresh.shown(u) =~= seq![]);
    }
    let a = LayerV { bsp: put(layer.bsp, uri, list), pc: layer.pc.remove(uri), ..layer };
    assert forall|u: Seq<char>| u != uri implies (#[trigger] a.published.contains(u) <==> a.shown(
        u,
    ).len() > 0) by {
        assert(a.shown(u) == layer.shown(u));
        assert(layer.published.contains(u) == a.published.contains(u));
    }
    assert forall|u: Seq<char>| #[trigger] a.bsp.contains_key(u) implies a.bsp[u].len() > 0 by {
        if u != uri {
            assert(layer.bsp.contains_key(u));
        }
    }
    assert forall|u: Seq<char>| #[trigger] a.pc.contains_key(u) implies a.pc[u].len() > 0 by {
        assert(layer.pc.contains_key(u));
    }
    lemma_emit_consistent(a, uri);
    let b = LayerV { pc: put(layer.pc, uri, list), ..layer };
    assert forall|u: Seq<char>| u != uri implies (#[trigger] b.published.contains(u) <==> b.shown(
        u,
    ).len() > 0) by {
        assert(b.shown(u) == layer.shown(u));
        assert(layer.published.contains(u) == b.published.contains(u));
    }
    assert forall|u: Seq<char>| #[trigger] b.pc.contains_key(u) implies b.pc[u].len() > 0 by {
        if u != uri {
            assert(layer.pc.contains_key(u));
        }
    }
    lemma_emit_consistent(b, uri);
}

/// A publish of the build drops the typing diagnostics of the file: the client gets
/// the build's alone.
pub proof fn law_build_supersedes_typing(layer: LayerV, uri: Seq<char>, list: Seq<Diagnostic>)
    ensures
        with_bsp(layer, uri, list).0.shown(uri) == list,
        with_bsp(layer, uri, list).1 matches Some(all) ==> all == list,
{
    let after = with_bsp(layer, uri, list).0;
    assert(after.shown(uri) =~= list);
    let mid = LayerV { bsp: put(layer.bsp, uri, list), pc: layer.pc.remove(uri), ..layer };
    assert(mid.shown(uri) =~= list);
}

/// A pull keeps the build diagnostics of the file and shows its own behind them;
/// dropping them leaves the build's alone.
pub proof fn law_pull_keeps_build(layer: LayerV, uri: Seq<char>, list: Seq<Diagnostic>)
    ensures
        of(with_pc(layer, uri, list).0.bsp, uri) == of(layer.bsp, uri),
        with_pc(layer, uri, list).0.shown(uri) == of(layer.bsp, uri) + list,
        with_pc(layer, uri, list).1 matches Some(all) ==> all == of(layer.bsp, uri) + list,
{
}

/// Without typing diagnostics there is nothing to drop: nothing changes, and nothing
/// is published. So a file is cleared once.
pub proof fn law_cleared_once(layer: LayerV, uri: Seq<char>)
    ensures
        ({
            let after = with_pc(layer, uri, seq![]).0;
            with_pc(after, uri, seq![]) == (after, None::<Seq<Diagnostic>>)
        }),
{
}

/// Nothing that happens to one file touches another.
pub proof fn law_other_files_untouched(
    layer: LayerV,
    uri: Seq<char>,
    list: Seq<Diagnostic>,
    other: Seq<char>,
)
    requires
        other != uri,
    ensures
        with_bsp(layer, uri, list).0.shown(other) == layer.shown(other),
        with_pc(layer, uri, list).0.shown(other) == layer.shown(other),
{
}

/// A diagnostic of the presentation compiler is published with its own coordinates and message,
/// its severity where the protocol has it, its code unless that is empty, and as a typing
/// diagnostic.
pub proof fn law_typing_published(list: Seq<PcDiagnostic>, published: Seq<Diagnostic>)
    requires
        all_published_as(list, published),
    ensures
        published.len() == list.len(),
        forall|k: int|
            0 <= k < list.len() ==> {
                let shown = #[trigger] published[k];
                &&& shown.range.start.line == list[k].range.start_line
                &&& shown.range.start.character == list[k].range.start_character
                &&& shown.range.end.line == list[k].range.end_line
                &&& shown.range.end.character == list[k].range.end_character
                &&& shown.message == list[k].message
                &&& shown.source matches Some(source) && source@ == "scala3-pc (typing)"@
                &&& match shown.severity {
                    Some(severity) => severity == list[k].severity && 1 <= severity <= 4,
                    None => list[k].severity < 1 || list[k].severity > 4,
                }
                &&& match shown.code {
                    Some(DiagnosticCode::String(code)) => code == list[k].code && code@.len() > 0,
                    Some(DiagnosticCode::Integer(_)) => false,
                    None => list[k].code@.len() == 0,
                }
            },
{
}

/// Where publishes go somewhere, the client is told of every change: a publish of the build is
/// forwarded unless the file had nothing and has nothing, and a pull unless it neither finds
/// typing diagnostics nor drops any. Where they go nowhere, nothing is forwarded.
pub proof fn law_client_is_told(layer: LayerV, uri: Seq<char>, list: Seq<Diagnostic>)
    requires
        layer.consistent(),
    ensures
        layer.connected ==> (with_bsp(layer, uri, list).1 is Some <==> list.len() > 0
            || layer.shown(uri).len() > 0),
        layer.connected ==> (with_pc(layer, uri, list).1 is Some <==> list.len() > 0 || of(
            layer.pc,
            uri,
        ).len() > 0),
        !layer.connected ==> with_bsp(layer, uri, list).1 is None && with_pc(
            layer,
            uri,
            list,
        ).1 is None,
        with_bsp(layer, uri, list).0.connected == layer.connected,
        with_pc(layer, uri, list).0.connected == layer.connected,
{
    assert(layer.published.contains(uri) <==> layer.shown(uri).len() > 0);
    if layer.pc.contains_key(uri) {
        assert(layer.pc[uri].len() > 0);
    }
    law_build_supersedes_typing(layer, uri, list);
    let mid = LayerV { bsp: put(layer.bsp, uri, list), pc: layer.pc.remove(uri), ..layer };
    assert(mid.shown(uri) =~= list);
    let pulled = LayerV { pc: put(layer.pc, uri, list), ..layer };
    assert(pulled.shown(uri) =~= of(layer.bsp, uri) + list);
}

/// What becomes of a pull.
#[derive(Clone, Copy, Debug, PartialEq, Eq, Structural)]
pub enum PullGate {
    /// Nothing: the compiler is not running, or there is no document store.
    Skip,
    /// The typing diagnostics of the file are dropped: its buffer is closed or
    /// clean.
    Clear,
    /// The compiler is asked, or its answer published.
    Proceed,
}

/// What becomes of a pull before the compiler is asked. A pull never starts the
/// compiler.
pub open spec fn gate(booted: bool, has_docs: bool, open: bool, dirty: bool) -> PullGate {
    if !booted || !has_docs {
        PullGate::Skip
    } else if open && dirty {
        PullGate::Proceed
    } else {
        PullGate::Clear
    }
}

/// What becomes of a pull before the compiler is asked.
pub fn pull_gate(booted: bool, has_docs: bool, open: bool, dirty: bool) -> (g: PullGate)
    ensures
        g == gate(booted, has_docs, open, dirty),
{
    if !booted || !has_docs {
        PullGate::Skip
    } else if open && dirty {
        PullGate::Proceed
    } else {
        PullGate::Clear
    }
}

/// Ends a pull with the answer of the compiler. The buffer may have been closed or
/// saved while the compiler was asked; its typing diagnostics are dropped then.
pub fn finish_pull(
    layer: &mut PcDiagnosticsLayer,
    uri: &str,
    open: bool,
    dirty: bool,
    answer: &Vec<PcDiagnostic>,
) -> (forwarded: Option<PublishDiagnosticsParams>)
    ensures
        !(open && dirty) ==> ({
            let (after, list) = with_pc(old(layer)@, uri@, seq![]);
            final(layer)@ == after && publishes(forwarded, uri@, list)
        }),
        open && dirty ==> exists|list: Seq<Diagnostic>| #[trigger]
            all_published_as(answer@, list) && ({
                let (after, all) = with_pc(old(layer)@, uri@, list);
                final(layer)@ == after && publishes(forwarded, uri@, all)
            }),
{
    if !(open && dirty) {
        return layer.clear_pc(uri);
    }
    let list = to_lsp_diagnostics(answer);
    layer.set_pc(uri, list)
}

/// The pending pulls: when each URI is due.
pub struct PullsV {
    pub due: Map<Seq<char>, u64>,
    pub shutting_down: bool,
    pub pulls_completed: u64,
    pub debounce: u64,
}

/// What the worker does next.
#[derive(Debug, PartialEq, Eq)]
pub enum PullStep {
    /// Exit.
    Exit,
    /// Wait until the state changes.
    Idle,
    /// Wait until the state changes, at most this many nanoseconds.
    Sleep(u64),
    /// Pull the diagnostics of a URI.
    Pull(String),
}

/// `uri` is the pending pull that is due first, and the first in URI order of
/// those.
pub open spec fn is_first_due(due: Map<Seq<char>, u64>, uri: Seq<char>) -> bool {
    &&& due.contains_key(uri)
    &&& forall|other: Seq<char>| #[trigger]
        due.contains_key(other) && other != uri ==> due[uri] < due[other] || (due[uri] == due[other]
            && order::before(uri, other))
}

/// The debounced pulls, one pending at most for each URI.
pub struct PcDiagnosticsScheduler {
    due: StrMap<u64>,
    shutting_down: bool,
    pulls_completed: u64,
    debounce: u64,
}

impl View for PcDiagnosticsScheduler {
    type V = PullsV;

    closed spec fn view(&self) -> PullsV {
        PullsV {
            due: self.due@,
            shutting_down: self.shutting_down,
            pulls_completed: self.pulls_completed,
            debounce: self.debounce,
        }
    }
}

/// The pulls behind a request. A URI that is pending keeps its time.
pub open spec fn requested(pulls: PullsV, uri: Seq<char>, now: u64) -> PullsV {
    if pulls.shutting_down || pulls.due.contains_key(uri) {
        pulls
    } else {
        PullsV { due: pulls.due.insert(uri, (now + pulls.debounce) as u64), ..pulls }
    }
}

/// The pulls behind a cancellation.
pub open spec fn cancelled(pulls: PullsV, uri: Seq<char>) -> PullsV {
    PullsV { due: pulls.due.remove(uri), ..pulls }
}

impl PcDiagnosticsScheduler {
    /// A scheduler with the default debounce.
    pub fn new() -> (scheduler: PcDiagnosticsScheduler)
        ensures
            scheduler@ == (PullsV {
                due: Map::empty(),
                shutting_down: false,
                pulls_completed: 0,
                debounce: PC_DIAGNOSTICS_DEBOUNCE,
            }),
    {
        Self::with_debounce(PC_DIAGNOSTICS_DEBOUNCE)
    }

    /// A scheduler with nothing pending.
    pub fn with_debounce(debounce: u64) -> (scheduler: PcDiagnosticsScheduler)
        ensures
            scheduler@ == (PullsV {
                due: Map::empty(),
                shutting_down: false,
                pulls_completed: 0,
                debounce,
            }),
    {
        PcDiagnosticsScheduler {
            due: StrMap::new(),
            shutting_down: false,
            pulls_completed: 0,
            debounce,
        }
    }

    /// Requests a pull.
    pub fn schedule(&mut self, uri: &str, now: u64)
        requires
            now + old(self)@.debounce <= u64::MAX,
        ensures
            final(self)@ == requested(old(self)@, uri@, now),
    {
        if self.shutting_down || self.due.contains(uri) {
            return;
        }
        let at = now + self.debounce;
        self.due.insert(uri.to_owned(), at);
    }

    /// Cancels a pending pull.
    pub fn cancel(&mut self, uri: &str)
        ensures
            final(self)@ == cancelled(old(self)@, uri@),
    {
        self.due.remove(uri);
    }

    /// What the worker does next. A pull that it begins is no longer pending.
    pub fn step(&mut self, now: u64) -> (step: PullStep)
        ensures
            match step {
                PullStep::Exit => old(self)@.shutting_down && final(self)@ == old(self)@,
                PullStep::Idle => !old(self)@.shutting_down && old(self)@.due.dom()
                    =~= Set::empty() && final(self)@ == old(self)@,
                PullStep::Sleep(time) => !old(self)@.shutting_down && final(self)@ == old(self)@
                    && exists|uri: Seq<char>| #[trigger]
                    is_first_due(old(self)@.due, uri) && old(self)@.due[uri] == now + time,
                PullStep::Pull(uri) => !old(self)@.shutting_down && is_first_due(
                    old(self)@.due,
                    uri@,
                ) && old(self)@.due[uri@] < now && final(self)@ == cancelled(old(self)@, uri@),
            },
    {
        if self.shutting_down {
            return PullStep::Exit;
        }
        let keys = self.due.sorted_keys();
        let ghost uris = text::texts(keys@);
        if keys.len() == 0 {
            proof {
                assert(uris =~= seq![]);
                assert(uris.to_set() =~= Set::empty());
            }
            return PullStep::Idle;
        }
        let mut best: usize = 0;
        let mut best_due: u64 = 0;
        let mut i: usize = 0;
        while i < keys.len()
            invariant
                i <= keys@.len(),
                keys@.len() > 0,
                uris == text::texts(keys@),
                uris.to_set() == self.due@.dom(),
                i == 0 ==> best == 0,
                i > 0 ==> best < i && best_due == self.due@[uris[best as int]],
                forall|j: int|
                    0 <= j < i && j != best ==> best_due < self.due@[#[trigger] uris[j]] || (
                    best_due == self.due@[uris[j]] && best < j),
            decreases keys.len() - i,
        {
            assert(uris[i as int] == keys@[i as int]@);
            assert(uris.contains(uris[i as int]));
            assert(self.due@.dom().contains(uris[i as int]));
            let due: u64 = match self.due.get(keys[i].as_str()) {
                Some(due) => *due,
                None => 0,
            };
            if i == 0 || due < best_due {
                best = i;
                best_due = due;
            }
            i += 1;
        }
        proof {
            let first = uris[best as int];
            assert(uris.contains(first));
            assert(self.due@.dom().contains(first));
            assert forall|other: Seq<char>| #[trigger]
                self.due@.contains_key(other) && other != first implies self.due@[first]
                < self.due@[other] || (self.due@[first] == self.due@[other] && order::before(
                first,
                other,
            )) by {
                assert(self.due@.dom().contains(other));
                assert(uris.contains(other));
                let j = choose|j: int| 0 <= j < uris.len() && uris[j] == other;
                if self.due@[first] == self.due@[other] {
                    assert(best < j);
                    assert(order::before(uris[best as int], uris[j]));
                }
            }
            assert(is_first_due(old(self)@.due, first));
            assert(old(self)@.due[first] == best_due);
        }
        if now <= best_due {
            return PullStep::Sleep(best_due - now);
        }
        let uri = keys[best].clone();
        self.due.remove(uri.as_str());
        PullStep::Pull(uri)
    }

    /// Counts a completed pull.
    pub fn pull_completed(&mut self)
        requires
            old(self)@.pulls_completed < u64::MAX,
        ensures
            final(self)@ == (PullsV {
                pulls_completed: (old(self)@.pulls_completed + 1) as u64,
                ..old(self)@
            }),
    {
        self.pulls_completed = self.pulls_completed + 1;
    }

    /// The number of completed pulls.
    pub fn pulls_completed(&self) -> (n: u64)
        ensures
            n == self@.pulls_completed,
    {
        self.pulls_completed
    }

    /// Tells the worker to exit.
    pub fn shut_down(&mut self)
        ensures
            final(self)@ == (PullsV { shutting_down: true, ..old(self)@ }),
    {
        self.shutting_down = true;
    }
}

/// Requests for a URI that is pending change nothing: they join its pull.
pub proof fn law_requests_coalesce(pulls: PullsV, uri: Seq<char>, first: u64, second: u64)
    requires
        first + pulls.debounce <= u64::MAX,
    ensures
        requested(requested(pulls, uri, first), uri, second) == requested(pulls, uri, first),
{
}

/// A cancelled pull is not pending, whatever was requested before, and no other pull
/// is affected.
pub proof fn law_cancel_disarms(pulls: PullsV, uri: Seq<char>, now: u64, other: Seq<char>)
    ensures
        !cancelled(requested(pulls, uri, now), uri).due.contains_key(uri),
        other != uri ==> cancelled(pulls, uri).due.contains_key(other) == pulls.due.contains_key(
            other,
        ),
{
}

/// A pull is due when its debounce is over, whichever others are pending, and a request moves no
/// other pull.
pub proof fn law_pull_due(pulls: PullsV, uri: Seq<char>, now: u64, other: Seq<char>)
    requires
        now + pulls.debounce <= u64::MAX,
    ensures
        !pulls.shutting_down && !pulls.due.contains_key(uri) ==> requested(
            pulls,
            uri,
            now,
        ).due.contains_key(uri) && requested(pulls, uri, now).due[uri] == now + pulls.debounce,
        other != uri ==> requested(pulls, uri, now).due.contains_key(other)
            == pulls.due.contains_key(other) && requested(pulls, uri, now).due[other]
            == pulls.due[other],
        pulls.shutting_down ==> requested(pulls, uri, now).due == pulls.due,
{
}

/// Only one pull is the first that is due, and no other is due before it.
pub proof fn law_first_due(due: Map<Seq<char>, u64>, uri: Seq<char>, other: Seq<char>)
    requires
        is_first_due(due, uri),
    ensures
        due.contains_key(other) ==> due[uri] <= due[other],
        due.contains_key(other) && due[uri] == due[other] && other != uri ==> order::before(
            uri,
            other,
        ),
        is_first_due(due, other) ==> other == uri,
{
    order::lemma_before_total(uri, other);
}

/// The compiler is asked of an open buffer with unsaved text alone, and only where it is running
/// already; a closed or saved buffer loses its typing diagnostics.
pub proof fn law_pull_gated(booted: bool, has_docs: bool, open: bool, dirty: bool)
    ensures
        gate(booted, has_docs, open, dirty) is Proceed <==> booted && has_docs && open && dirty,
        gate(booted, has_docs, open, dirty) is Clear <==> booted && has_docs && !(open && dirty),
{
}

} // verus!
