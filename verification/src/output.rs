//! What the server writes: frames, each whole, in the order in which they are sent.

use vstd::prelude::*;
use vstd::string::*;

use crate::convert;
use crate::json;
use crate::json::Json;
use crate::json::JsonV;
use crate::jsonrpc;
use crate::pc_convert;
use crate::protocol::{Diagnostic, DiagnosticCode, Position, PublishDiagnosticsParams, Range};

verus! {

/// The JSON of the code of a diagnostic.
pub open spec fn code_json(code: DiagnosticCode) -> JsonV {
    match code {
        DiagnosticCode::Integer(n) => json::int_view(n as int),
        DiagnosticCode::String(s) => JsonV::Str(s@),
    }
}

/// The JSON of a diagnostic. What is absent is left out.
pub open spec fn diagnostic_json(diagnostic: Diagnostic) -> JsonV {
    let m: pc_convert::Members = seq![("range"@, convert::range_json(diagnostic.range))];
    let m = pc_convert::with_some(
        m,
        "severity"@,
        match diagnostic.severity {
            Some(severity) => Some(json::int_view(severity as int)),
            None => None,
        },
    );
    let m = pc_convert::with_some(
        m,
        "code"@,
        match diagnostic.code {
            Some(code) => Some(code_json(code)),
            None => None,
        },
    );
    let m = pc_convert::with_some(m, "source"@, pc_convert::text_value(diagnostic.source));
    JsonV::Object(m.push(("message"@, JsonV::Str(diagnostic.message@))))
}

/// The JSON of a list of diagnostics.
pub open spec fn diagnostics_json(diagnostics: Seq<Diagnostic>) -> JsonV {
    JsonV::Array(diagnostics.map_values(|d: Diagnostic| diagnostic_json(d)))
}

/// The JSON of the parameters of a `textDocument/publishDiagnostics` notification.
pub open spec fn publish_json(params: PublishDiagnosticsParams) -> JsonV {
    JsonV::Object(
        seq![
            ("uri"@, JsonV::Str(params.uri@)),
            ("diagnostics"@, diagnostics_json(params.diagnostics@)),
        ],
    )
}

/// The JSON of a `textDocument/publishDiagnostics` notification, before its members are
/// put in order.
pub open spec fn publish_envelope(params: PublishDiagnosticsParams) -> JsonV {
    JsonV::Object(
        seq![
            ("jsonrpc"@, JsonV::Str("2.0"@)),
            ("method"@, JsonV::Str("textDocument/publishDiagnostics"@)),
            ("params"@, publish_json(params)),
        ],
    )
}

/// The JSON of a `textDocument/publishDiagnostics` notification. Members stand in name
/// order.
pub open spec fn publish_message(params: PublishDiagnosticsParams) -> JsonV {
    json::sorted(publish_envelope(params))
}

proof fn lemma_range_plain(range: Range, depth: nat)
    requires
        depth >= 2,
    ensures
        json::plain(convert::range_json(range), depth),
{
    reveal_strlit("line");
    reveal_strlit("character");
    reveal_strlit("start");
    reveal_strlit("end");
    assert("line"@.len() == 4 && "character"@.len() == 9);
    assert("start"@.len() == 5 && "end"@.len() == 3);
    lemma_position_plain(range.start, (depth - 1) as nat);
    lemma_position_plain(range.end, (depth - 1) as nat);
    assert(json::names(convert::range_json(range)->Object_0).no_duplicates());
}

proof fn lemma_position_plain(position: Position, depth: nat)
    requires
        depth >= 1,
    ensures
        json::plain(convert::position_json(position), depth),
{
    reveal_strlit("line");
    reveal_strlit("character");
    assert("line"@.len() == 4 && "character"@.len() == 9);
    json::lemma_int_plain(position.line as int, (depth - 1) as nat);
    json::lemma_int_plain(position.character as int, (depth - 1) as nat);
    assert(json::names(convert::position_json(position)->Object_0).no_duplicates());
}

proof fn lemma_diagnostic_plain(diagnostic: Diagnostic, depth: nat)
    requires
        depth >= 3,
    ensures
        json::plain(diagnostic_json(diagnostic), depth),
{
    reveal_strlit("range");
    reveal_strlit("severity");
    reveal_strlit("code");
    reveal_strlit("source");
    reveal_strlit("message");
    assert("range"@.len() == 5 && "severity"@.len() == 8 && "code"@.len() == 4);
    assert("source"@.len() == 6 && "message"@.len() == 7);
    let members = diagnostic_json(diagnostic)->Object_0;
    let below = (depth - 1) as nat;
    lemma_range_plain(diagnostic.range, below);
    match diagnostic.severity {
        Some(n) => {
            json::lemma_int_plain(n as int, below);
        },
        None => {},
    }
    match diagnostic.code {
        Some(DiagnosticCode::Integer(n)) => {
            json::lemma_int_plain(n as int, below);
        },
        _ => {},
    }
    assert(json::names(members).no_duplicates());
    assert forall|i: int| 0 <= i < members.len() implies json::plain(
        (#[trigger] members[i]).1,
        below,
    ) by {}
}

/// A client that reads a `textDocument/publishDiagnostics` notification finds it again:
/// the notification is plain.
pub proof fn law_publish_plain(params: PublishDiagnosticsParams)
    ensures
        json::plain(publish_message(params), json::plain_depth()),
{
    reveal_strlit("jsonrpc");
    reveal_strlit("method");
    reveal_strlit("params");
    reveal_strlit("uri");
    reveal_strlit("diagnostics");
    assert("jsonrpc"@.len() == 7 && "method"@.len() == 6 && "params"@.len() == 6);
    assert("method"@[0] == 'm' && "params"@[0] == 'p');
    assert("uri"@.len() == 3 && "diagnostics"@.len() == 11);
    let list = diagnostics_json(params.diagnostics@);
    assert forall|i: int| 0 <= i < params.diagnostics@.len() implies json::plain(
        #[trigger] list->Array_0[i],
        97,
    ) by {
        lemma_diagnostic_plain(params.diagnostics@[i], 97);
    }
    assert(json::plain(list, 98));
    let inner = publish_json(params);
    assert(json::names(inner->Object_0).no_duplicates());
    assert forall|i: int| 0 <= i < 2 implies json::plain((#[trigger] inner->Object_0[i]).1, 98) by {}
    assert(json::plain(inner, 99));
    let outer = publish_envelope(params);
    assert(json::names(outer->Object_0).no_duplicates());
    assert forall|i: int| 0 <= i < 3 implies json::plain((#[trigger] outer->Object_0[i]).1, 99) by {}
    assert(json::plain(outer, 100));
    json::law_sorted_plain(outer, 100);
}

impl Diagnostic {
    /// The JSON of the diagnostic.
    pub fn to_json(&self) -> (value: Json)
        ensures
            value@ == diagnostic_json(*self),
    {
        let mut m: Vec<(String, Json)> = Vec::new();
        assert(json::member_views(m@) =~= seq![]);
        json::put(&mut m, "range", self.range.to_json());
        assert(json::member_views(m@) =~= seq![("range"@, convert::range_json(self.range))]);
        pc_convert::put_some(
            &mut m,
            "severity",
            match self.severity {
                Some(severity) => Some(json::natural(severity as u64)),
                None => None,
            },
        );
        pc_convert::put_some(
            &mut m,
            "code",
            match &self.code {
                Some(DiagnosticCode::Integer(n)) => Some(json::number(*n)),
                Some(DiagnosticCode::String(s)) => Some(json::string(s.as_str())),
                None => None,
            },
        );
        pc_convert::put_text(&mut m, "source", &self.source);
        json::put(&mut m, "message", json::string(self.message.as_str()));
        json::object(m)
    }
}

impl PublishDiagnosticsParams {
    /// The JSON of the parameters.
    pub fn to_json(&self) -> (value: Json)
        ensures
            value@ == publish_json(*self),
    {
        let ghost all = self.diagnostics@.map_values(|d: Diagnostic| diagnostic_json(d));
        let mut items: Vec<Json> = Vec::new();
        let mut i: usize = 0;
        assert(json::views(items@) =~= all.take(0));
        while i < self.diagnostics.len()
            invariant
                i <= self.diagnostics@.len(),
                all == self.diagnostics@.map_values(|d: Diagnostic| diagnostic_json(d)),
                json::views(items@) == all.take(i as int),
            decreases self.diagnostics.len() - i,
        {
            json::push(&mut items, self.diagnostics[i].to_json());
            i += 1;
            assert(all.take(i as int) =~= all.take(i - 1).push(all[i - 1]));
        }
        assert(all.take(i as int) =~= all);
        json::pair("uri", json::string(self.uri.as_str()), "diagnostics", json::array(items))
    }

    /// The notification that publishes the diagnostics.
    pub fn to_message(&self) -> (value: Json)
        ensures
            value@ == publish_message(*self),
    {
        let mut m: Vec<(String, Json)> = Vec::new();
        assert(json::member_views(m@) =~= seq![]);
        json::put(&mut m, "jsonrpc", json::string("2.0"));
        json::put(&mut m, "method", json::string("textDocument/publishDiagnostics"));
        json::put(&mut m, "params", self.to_json());
        assert(json::member_views(m@) =~= publish_envelope(*self)->Object_0);
        json::object(m).sorted()
    }
}

/// The frames that were sent and not yet written.
#[derive(Debug, PartialEq, Eq)]
pub struct OutputSink {
    bytes: Vec<u8>,
}

impl View for OutputSink {
    type V = Seq<u8>;

    closed spec fn view(&self) -> Seq<u8> {
        self.bytes@
    }
}

impl OutputSink {
    /// A sink that continues what was written before.
    pub fn new(bytes: Vec<u8>) -> (sink: OutputSink)
        ensures
            sink@ == bytes@,
    {
        OutputSink { bytes }
    }

    /// Sends a frame.
    pub fn send_frame(&mut self, frame: Vec<u8>)
        ensures
            final(self)@ == old(self)@ + frame@,
    {
        let mut frame = frame;
        self.bytes.append(&mut frame);
    }

    /// Sends a message as one frame.
    pub fn send(&mut self, message: &Json)
        ensures
            final(self)@ == old(self)@ + jsonrpc::framed(json::printed(message@)),
            json::reads_back(json::printed(message@), message@),
    {
        self.send_frame(jsonrpc::write_frame(message));
    }

    /// Sends a `textDocument/publishDiagnostics` notification.
    pub fn publish_diagnostics(&mut self, params: &PublishDiagnosticsParams)
        ensures
            final(self)@ == old(self)@ + jsonrpc::framed(json::printed(publish_message(*params))),
            json::denotes(json::printed(publish_message(*params)), publish_message(*params)),
    {
        proof {
            law_publish_plain(*params);
        }
        self.send(&params.to_message());
    }

    /// A copy of what was sent.
    pub fn written(&self) -> (bytes: Vec<u8>)
        ensures
            bytes@ == self@,
    {
        vstd::slice::slice_to_vec(self.bytes.as_slice())
    }

    /// Takes what was sent out of the sink.
    pub fn take(&mut self) -> (bytes: Vec<u8>)
        ensures
            bytes@ == old(self)@,
            final(self)@ == Seq::<u8>::empty(),
    {
        let mut bytes: Vec<u8> = Vec::new();
        std::mem::swap(&mut bytes, &mut self.bytes);
        bytes
    }
}

/// The bytes of a list of messages that were sent one behind the other.
pub open spec fn all_framed(bodies: Seq<Seq<u8>>) -> Seq<u8>
    decreases bodies.len(),
{
    if bodies.len() == 0 {
        seq![]
    } else {
        jsonrpc::framed(bodies[0]) + all_framed(bodies.drop_first())
    }
}

/// Frames do not run into each other: a reader of what was sent finds the first body,
/// and the other frames behind it.
pub proof fn law_frames_stay_apart(bodies: Seq<Seq<u8>>)
    requires
        bodies.len() > 0,
        bodies[0].len() <= usize::MAX,
    ensures
        jsonrpc::frame_of(all_framed(bodies)) == jsonrpc::FrameV::Body(
            bodies[0],
            jsonrpc::framed(bodies[0]).len(),
        ),
        all_framed(bodies).skip(jsonrpc::framed(bodies[0]).len() as int) == all_framed(
            bodies.drop_first(),
        ),
{
    jsonrpc::law_frame_round_trip(bodies[0], all_framed(bodies.drop_first()));
    assert(all_framed(bodies).skip(jsonrpc::framed(bodies[0]).len() as int) =~= all_framed(
        bodies.drop_first(),
    ));
}

/// A JSON object shows a diagnostic: its range, its message, and its severity, code and source
/// where it has them.
pub open spec fn shows_diagnostic(value: JsonV, d: Diagnostic) -> bool {
    &&& value.get("range"@) matches Some(range) && convert::shows_range(range, d.range)
    &&& match d.severity {
        Some(n) => value.get("severity"@) == Some(json::int_view(n as int)),
        None => value.get("severity"@) is None,
    }
    &&& match d.code {
        Some(DiagnosticCode::Integer(n)) => value.get("code"@) == Some(json::int_view(n as int)),
        Some(DiagnosticCode::String(s)) => value.get("code"@) == Some(JsonV::Str(s@)),
        None => value.get("code"@) is None,
    }
    &&& pc_convert::shows_text(value.get("source"@), d.source)
    &&& value.get("message"@) == Some(JsonV::Str(d.message@))
}

proof fn lemma_diagnostic_members(d: Diagnostic)
    ensures
        diagnostic_json(d).get("range"@) == Some(convert::range_json(d.range)),
        diagnostic_json(d).get("severity"@) == (match d.severity {
            Some(n) => Some(json::int_view(n as int)),
            None => None,
        }),
        diagnostic_json(d).get("code"@) == (match d.code {
            Some(DiagnosticCode::Integer(n)) => Some(json::int_view(n as int)),
            Some(DiagnosticCode::String(s)) => Some(JsonV::Str(s@)),
            None => None,
        }),
        diagnostic_json(d).get("source"@) == pc_convert::text_value(d.source),
        diagnostic_json(d).get("message"@) == Some(JsonV::Str(d.message@)),
        json::names(diagnostic_json(d)->Object_0).no_duplicates(),
{
    broadcast use {
        json::lemma_member_short,
        json::lemma_member_push,
        pc_convert::lemma_with_some,
    };

    reveal_strlit("range");
    reveal_strlit("severity");
    reveal_strlit("code");
    reveal_strlit("source");
    reveal_strlit("message");
    assert("range"@.len() == 5 && "severity"@.len() == 8 && "code"@.len() == 4);
    assert("source"@.len() == 6 && "message"@.len() == 7);
}

proof fn lemma_sorted_range(range: Range)
    ensures
        convert::shows_range(json::sorted(convert::range_json(range)), range),
{
    broadcast use json::lemma_member_short;

    reveal_strlit("line");
    reveal_strlit("character");
    reveal_strlit("start");
    reveal_strlit("end");
    assert("line"@.len() == 4 && "character"@.len() == 9);
    assert("start"@.len() == 5 && "end"@.len() == 3);
    let whole = convert::range_json(range)->Object_0;
    assert(json::names(whole).no_duplicates());
    json::law_sorted_members_stay(whole, "start"@);
    json::law_sorted_members_stay(whole, "end"@);
    let start = convert::position_json(range.start)->Object_0;
    let end = convert::position_json(range.end)->Object_0;
    assert(json::names(start).no_duplicates());
    assert(json::names(end).no_duplicates());
    json::law_sorted_members_stay(start, "line"@);
    json::law_sorted_members_stay(start, "character"@);
    json::law_sorted_members_stay(end, "line"@);
    json::law_sorted_members_stay(end, "character"@);
    json::law_sorted_items_stay(json::int_view(range.start.line as int));
    json::law_sorted_items_stay(json::int_view(range.start.character as int));
    json::law_sorted_items_stay(json::int_view(range.end.line as int));
    json::law_sorted_items_stay(json::int_view(range.end.character as int));
}

proof fn lemma_sorted_diagnostic(d: Diagnostic)
    ensures
        shows_diagnostic(json::sorted(diagnostic_json(d)), d),
{
    let members = diagnostic_json(d)->Object_0;
    lemma_diagnostic_members(d);
    lemma_sorted_range(d.range);
    json::law_sorted_members_stay(members, "range"@);
    json::law_sorted_members_stay(members, "severity"@);
    json::law_sorted_members_stay(members, "code"@);
    json::law_sorted_members_stay(members, "source"@);
    json::law_sorted_members_stay(members, "message"@);
    json::law_sorted_items_stay(JsonV::Str(d.message@));
    match d.severity {
        Some(n) => json::law_sorted_items_stay(json::int_view(n as int)),
        None => {},
    }
    match d.code {
        Some(DiagnosticCode::Integer(n)) => json::law_sorted_items_stay(json::int_view(n as int)),
        Some(DiagnosticCode::String(s)) => json::law_sorted_items_stay(JsonV::Str(s@)),
        None => {},
    }
    match d.source {
        Some(s) => json::law_sorted_items_stay(JsonV::Str(s@)),
        None => {},
    }
}

/// The JSON of a diagnostic shows each of its fields under its name.
pub proof fn law_diagnostic_shown(d: Diagnostic)
    ensures
        shows_diagnostic(diagnostic_json(d), d),
{
    lemma_diagnostic_members(d);
    convert::law_places_shown(
        convert::Location { uri: arbitrary(), range: d.range },
        arbitrary(),
    );
}

/// The notification that publishes diagnostics names its method, and its parameters show the URI
/// of the file and each of the diagnostics, in order.
pub proof fn law_publish_shown(params: PublishDiagnosticsParams)
    ensures
        publish_message(params).get("jsonrpc"@) == Some(JsonV::Str("2.0"@)),
        publish_message(params).get("method"@) == Some(
            JsonV::Str("textDocument/publishDiagnostics"@),
        ),
        publish_message(params).get("params"@) matches Some(told) && told.get("uri"@) == Some(
            JsonV::Str(params.uri@),
        ) && (told.get("diagnostics"@) matches Some(JsonV::Array(items)) && items.len()
            == params.diagnostics@.len() && forall|k: int|
            0 <= k < items.len() ==> shows_diagnostic(
                #[trigger] items[k],
                params.diagnostics@[k],
            )),
{
    broadcast use json::lemma_member_short;

    reveal_strlit("jsonrpc");
    reveal_strlit("method");
    reveal_strlit("params");
    reveal_strlit("uri");
    reveal_strlit("diagnostics");
    assert("jsonrpc"@.len() == 7 && "method"@.len() == 6 && "params"@.len() == 6);
    assert("method"@[0] == 'm' && "params"@[0] == 'p');
    assert("uri"@.len() == 3 && "diagnostics"@.len() == 11);
    let outer = publish_envelope(params)->Object_0;
    let inner = publish_json(params)->Object_0;
    assert(json::names(outer).no_duplicates());
    assert(json::names(inner).no_duplicates());
    json::law_sorted_members_stay(outer, "jsonrpc"@);
    json::law_sorted_members_stay(outer, "method"@);
    json::law_sorted_members_stay(outer, "params"@);
    json::law_sorted_members_stay(inner, "uri"@);
    json::law_sorted_members_stay(inner, "diagnostics"@);
    json::law_sorted_items_stay(JsonV::Str("2.0"@));
    json::law_sorted_items_stay(JsonV::Str("textDocument/publishDiagnostics"@));
    json::law_sorted_items_stay(JsonV::Str(params.uri@));
    let list = diagnostics_json(params.diagnostics@);
    json::law_sorted_items_stay(list);
    let items = json::sorted(list)->Array_0;
    assert forall|k: int| 0 <= k < items.len() implies shows_diagnostic(
        #[trigger] items[k],
        params.diagnostics@[k],
    ) by {
        lemma_sorted_diagnostic(params.diagnostics@[k]);
    }
}

} // verus!
