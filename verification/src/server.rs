//! The server: which state the workspace is in, and what each message does to it and
//! is answered. The application reads and writes frames, runs the bootstrap on a
//! worker, and performs the actions that this module asks for.

use vstd::prelude::*;
use vstd::string::*;

use crate::capabilities;
use crate::capabilities::commands;
use crate::capabilities::{InitializeResult, SemanticTokensLegend};
use crate::config;
use crate::doctor;
use crate::doctor::DoctorReport;
use crate::documents;
use crate::documents::{ContentChange, DocumentStore};
use crate::json;
use crate::json::Json;
use crate::json::JsonV;
use crate::jsonrpc;
use crate::jsonrpc::error_codes;
use crate::jsonrpc::{
    Incoming, IncomingV, Notification, Request, RequestId, RequestIdV, Response, ResponseError,
    ResponseErrorV,
};
use crate::lifecycle;
use crate::lifecycle::{Method, PreReadyOutcome, WorkspaceState};
use crate::logging;
use crate::numerals;
use crate::params;
use crate::paths;
use crate::text;

verus! {

/// How the workspace becomes ready.
pub trait Bootstrap<S> {
    /// Builds the services of a workspace, or tells why there are none. It runs on a
    /// worker.
    fn build(&self, workspace_root: Option<String>) -> WorkspaceState<S>;

    /// Hands the documents that are open to services that just became ready.
    fn replay(&self, _services: &S, _documents: &DocumentStore) {
    }

    /// Builds the services anew after the build targets changed.
    fn reload(&self, old_services: S, _documents: &DocumentStore) -> (state: WorkspaceState<S>)
        default_ensures
            state == WorkspaceState::Ready(old_services),
    {
        WorkspaceState::Ready(old_services)
    }
}

/// What a handler of a ready workspace is given.
pub struct RequestContext<'a, S> {
    pub request: &'a Request,
    pub services: &'a S,
    pub workspace_root: Option<&'a str>,
    pub documents: &'a DocumentStore,
    pub shutting_down: bool,
}

/// What the services of a ready workspace do. The hooks are called while the workspace
/// is ready, behind the change of the documents; URIs are normalized.
pub trait Handlers<S> {
    /// Answers a request.
    fn handle(&self, cx: RequestContext<'_, S>) -> Response;

    /// A document was opened.
    fn on_did_open(&self, _services: &S, _uri: &str, _text: &str) {
    }

    /// A document was changed; `text` is all of it.
    fn on_did_change(&self, _services: &S, _uri: &str, _text: &str) {
    }

    /// A document was closed.
    fn on_did_close(&self, _services: &S, _uri: &str) {
    }

    /// A document was saved.
    fn on_did_save(&self, _services: &S, _uri: &str) {
    }

    /// The configuration changed. What the client sent of it is ignored: the file in
    /// the workspace is what counts.
    fn on_did_change_configuration(&self, _services: &S) {
    }

    /// The report on a ready workspace, if there is one.
    fn doctor(&self, _services: &S, _workspace_root: Option<&str>) -> (report: Option<
        DoctorReport,
    >)
        default_ensures
            report is None,
    {
        None
    }
}

/// What the server asks of the machine that it runs on: the legend of semantic tokens,
/// the path that a URI names, in normal form, the normal form of a URI, and the offline
/// report of a directory.
pub struct Host<P, N, O> {
    pub legend: SemanticTokensLegend,
    pub path_of: P,
    pub normal_uri: N,
    pub offline: O,
}

impl<
    P: Fn(&str) -> Option<String>,
    N: Fn(&str) -> String,
    O: Fn(&str) -> DoctorReport,
> Host<P, N, O> {
    /// The machine answers for every URI and every directory.
    pub open spec fn answers(self) -> bool {
        &&& forall|uri: &str| self.path_of.requires((uri,))
        &&& forall|uri: &str| self.normal_uri.requires((uri,))
        &&& forall|root: &str| self.offline.requires((root,))
    }

    /// `normal` may be the normal form of a URI.
    pub open spec fn normalizes(self, uri: Seq<char>, normal: Seq<char>) -> bool {
        paths::normalizes(self.normal_uri, uri, normal)
    }

    /// `uri` may be the URI of the document that the parameters of a notification name, in
    /// normal form.
    pub open spec fn locates(self, params: JsonV, uri: Option<Seq<char>>) -> bool {
        match (params::document_uri_in(params), uri) {
            (Some(given), Some(normal)) => self.normalizes(given, normal),
            (None, None) => true,
            _ => false,
        }
    }

    /// The URI of the document that the parameters of a notification name, in normal form.
    pub fn document_uri(&self, params: &Json) -> (uri: Option<String>)
        requires
            self.answers(),
        ensures
            self.locates(params@, string_view(uri)),
    {
        match params::document_uri(params) {
            Some(given) => Some(paths::normal_uri(&self.normal_uri, given.as_str())),
            None => None,
        }
    }

    /// `path` may be the path that a URI names.
    pub open spec fn names(self, uri: Seq<char>, path: Option<String>) -> bool {
        exists|key: &str| #[trigger] self.path_of.ensures((key,), path) && key@ == uri
    }

    /// `report` may be the offline report of a directory.
    pub open spec fn reports(self, root: Seq<char>, report: DoctorReport) -> bool {
        exists|key: &str| #[trigger] self.offline.ensures((key,), report) && key@ == root
    }

    /// `root` may be the root of the workspace that the parameters of `initialize`
    /// name: the path of its URI.
    pub open spec fn roots(self, params: JsonV, root: Option<Seq<char>>) -> bool {
        match params::root_uri_in(params) {
            None => root is None,
            Some(uri) => self.leads(uri, root),
        }
    }

    /// `root` may be the path that a URI names.
    pub open spec fn leads(self, uri: Seq<char>, root: Option<Seq<char>>) -> bool {
        exists|path: Option<String>| #[trigger] self.names(uri, path) && root == string_view(path)
    }
}

/// The text of an optional string.
pub open spec fn string_view(s: Option<String>) -> Option<Seq<char>> {
    match s {
        Some(s) => Some(s@),
        None => None,
    }
}

/// The root of the workspace that the parameters of `initialize` name.
pub fn root_from_params<
    P: Fn(&str) -> Option<String>,
    N: Fn(&str) -> String,
    O: Fn(&str) -> DoctorReport,
>(
    host: &Host<P, N, O>,
    params: &Json,
) -> (root: Option<String>)
    requires
        host.answers(),
    ensures
        host.roots(params@, string_view(root)),
{
    match params::root_uri(params) {
        None => None,
        Some(uri) => {
            let path = (host.path_of)(uri.as_str());
            assert(host.names(uri@, path));
            assert(host.leads(uri@, string_view(path)));
            path
        },
    }
}

/// The state of the server.
pub struct ServerCore<S> {
    pub state: WorkspaceState<S>,
    pub docs: DocumentStore,
    pub workspace_root: Option<String>,
    pub shutting_down: bool,
    /// Whether `initialize` arrived.
    pub initialized: bool,
    /// Whether the build targets changed since the services were built.
    pub reload_requested: bool,
    /// Whether the bootstrap runs on a worker.
    pub bootstrapping: bool,
}

/// What a look at the worker of the bootstrap showed.
pub enum WorkerPoll<S> {
    /// It is still running.
    Pending,
    /// It ended with this state.
    Finished(WorkspaceState<S>),
    /// It ended without one.
    Gone,
}

/// Whether a state says why it is not ready.
pub open spec fn not_ready<S>(state: WorkspaceState<S>, why: Seq<char>) -> bool {
    match state {
        WorkspaceState::NotReady { detail } => detail@ == why,
        _ => false,
    }
}

impl<S> ServerCore<S> {
    /// A server that has seen no message.
    pub fn new() -> (core: ServerCore<S>)
        ensures
            not_ready(core.state, "initialize has not run"@),
            core.docs@ == Map::<Seq<char>, (Seq<char>, i64)>::empty(),
            core.workspace_root is None,
            !core.shutting_down,
            !core.initialized,
            !core.reload_requested,
            !core.bootstrapping,
    {
        ServerCore {
            state: WorkspaceState::NotReady { detail: "initialize has not run".to_owned() },
            docs: DocumentStore::new(),
            workspace_root: None,
            shutting_down: false,
            initialized: false,
            reload_requested: false,
            bootstrapping: false,
        }
    }

    /// `after` is the server behind `initialize`: it knows its root, and waits for the
    /// `initialized` notification unless it is ready.
    pub open spec fn initialized_to<
    P: Fn(&str) -> Option<String>,
    N: Fn(&str) -> String,
    O: Fn(&str) -> DoctorReport,
>(
        self,
        host: Host<P, N, O>,
        params: JsonV,
        after: ServerCore<S>,
    ) -> bool {
        &&& host.roots(params, string_view(after.workspace_root))
        &&& after.initialized
        &&& if self.state is Ready {
            after.state == self.state
        } else {
            not_ready(after.state, "waiting for the initialized notification"@)
        }
        &&& after.docs == self.docs
        &&& after.shutting_down == self.shutting_down
        &&& after.reload_requested == self.reload_requested
        &&& after.bootstrapping == self.bootstrapping
    }

    /// Takes an `initialize` request.
    pub fn initialize<
    P: Fn(&str) -> Option<String>,
    N: Fn(&str) -> String,
    O: Fn(&str) -> DoctorReport,
>(
        &mut self,
        host: &Host<P, N, O>,
        params: &Json,
    ) -> (result: InitializeResult)
        requires
            host.answers(),
        ensures
            old(self).initialized_to(*host, params@, *final(self)),
            capabilities::is_initialize_result(result, host.legend),
    {
        let root = root_from_params(host, params);
        self.workspace_root = root;
        self.initialized = true;
        if !self.state.is_ready() {
            self.state = WorkspaceState::NotReady {
                detail: "waiting for the initialized notification".to_owned(),
            };
        }
        capabilities::initialize_result(host.legend.copy())
    }

    /// `after` is the server behind `shutdown`. A second `shutdown` changes nothing.
    pub open spec fn shut_down_to(self, after: ServerCore<S>) -> bool {
        if self.shutting_down {
            after == self
        } else {
            &&& not_ready(after.state, "server is shut down"@)
            &&& after.shutting_down
            &&& after.docs == self.docs
            &&& after.workspace_root == self.workspace_root
            &&& after.initialized == self.initialized
            &&& after.reload_requested == self.reload_requested
            &&& after.bootstrapping == self.bootstrapping
        }
    }

    /// Takes a `shutdown` request.
    pub fn shutdown(&mut self)
        ensures
            old(self).shut_down_to(*final(self)),
    {
        if !self.shutting_down {
            self.shutting_down = true;
            self.state = WorkspaceState::NotReady { detail: "server is shut down".to_owned() };
        }
    }
}

/// The method that a request names, where its answer depends on the workspace.
pub open spec fn readiness(method: Seq<char>) -> Option<Method> {
    if method == "textDocument/completion"@ {
        Some(Method::Completion)
    } else if method == "textDocument/hover"@ {
        Some(Method::Hover)
    } else if method == "textDocument/signatureHelp"@ {
        Some(Method::SignatureHelp)
    } else if method == "textDocument/definition"@ {
        Some(Method::Definition)
    } else if method == "textDocument/typeDefinition"@ {
        Some(Method::TypeDefinition)
    } else if method == "textDocument/references"@ {
        Some(Method::References)
    } else if method == "textDocument/documentHighlight"@ {
        Some(Method::DocumentHighlight)
    } else if method == "textDocument/prepareRename"@ {
        Some(Method::PrepareRename)
    } else if method == "textDocument/rename"@ {
        Some(Method::Rename)
    } else if method == "workspace/symbol"@ {
        Some(Method::WorkspaceSymbol)
    } else if method == "textDocument/inlayHint"@ {
        Some(Method::InlayHint)
    } else if method == "textDocument/codeAction"@ {
        Some(Method::CodeAction)
    } else if method == "textDocument/selectionRange"@ {
        Some(Method::SelectionRange)
    } else if method == "textDocument/foldingRange"@ {
        Some(Method::FoldingRange)
    } else if method == "textDocument/semanticTokens/full"@ {
        Some(Method::SemanticTokensFull)
    } else if method == "textDocument/semanticTokens/range"@ {
        Some(Method::SemanticTokensRange)
    } else {
        None
    }
}

/// The method that a request names, where its answer depends on the workspace.
pub fn readiness_method(method: &str) -> (found: Option<Method>)
    ensures
        found == readiness(method@),
{
    if text::same_text(method, "textDocument/completion") {
        Some(Method::Completion)
    } else if text::same_text(method, "textDocument/hover") {
        Some(Method::Hover)
    } else if text::same_text(method, "textDocument/signatureHelp") {
        Some(Method::SignatureHelp)
    } else if text::same_text(method, "textDocument/definition") {
        Some(Method::Definition)
    } else if text::same_text(method, "textDocument/typeDefinition") {
        Some(Method::TypeDefinition)
    } else if text::same_text(method, "textDocument/references") {
        Some(Method::References)
    } else if text::same_text(method, "textDocument/documentHighlight") {
        Some(Method::DocumentHighlight)
    } else if text::same_text(method, "textDocument/prepareRename") {
        Some(Method::PrepareRename)
    } else if text::same_text(method, "textDocument/rename") {
        Some(Method::Rename)
    } else if text::same_text(method, "workspace/symbol") {
        Some(Method::WorkspaceSymbol)
    } else if text::same_text(method, "textDocument/inlayHint") {
        Some(Method::InlayHint)
    } else if text::same_text(method, "textDocument/codeAction") {
        Some(Method::CodeAction)
    } else if text::same_text(method, "textDocument/selectionRange") {
        Some(Method::SelectionRange)
    } else if text::same_text(method, "textDocument/foldingRange") {
        Some(Method::FoldingRange)
    } else if text::same_text(method, "textDocument/semanticTokens/full") {
        Some(Method::SemanticTokensFull)
    } else if text::same_text(method, "textDocument/semanticTokens/range") {
        Some(Method::SemanticTokensRange)
    } else {
        None
    }
}

/// The empty result of a method: an empty complete list for completion, else an empty
/// array.
pub open spec fn empty_json(method: Method) -> JsonV {
    if method == Method::Completion {
        JsonV::Object(
            seq![("isIncomplete"@, JsonV::Bool(false)), ("items"@, JsonV::Array(seq![]))],
        )
    } else {
        JsonV::Array(seq![])
    }
}

/// The empty result of a method.
pub fn empty_result(method: Method) -> (value: Json)
    ensures
        value@ == empty_json(method),
{
    let none: Vec<Json> = Vec::new();
    assert(json::views(none@) =~= seq![]);
    let empty = json::array(none);
    if method == Method::Completion {
        json::pair("isIncomplete", Json::Bool(false), "items", empty)
    } else {
        empty
    }
}

/// What a method is answered while the workspace is not ready.
pub open spec fn fallback<S>(method: Method, state: WorkspaceState<S>) -> Result<
    JsonV,
    ResponseErrorV,
> {
    match lifecycle::outcome_before_ready(method) {
        PreReadyOutcome::NotReadyError => Err(
            jsonrpc::error_view(
                error_codes::REQUEST_FAILED,
                "workspace is "@ + state.status(),
            ),
        ),
        PreReadyOutcome::Null => Ok(JsonV::Null),
        PreReadyOutcome::Empty => Ok(empty_json(method)),
    }
}

/// What a method is answered while the workspace is not ready. A method whose answer is an
/// error then has none while it is ready.
pub fn pre_ready_response<S>(id: RequestId, method: Method, state: &WorkspaceState<S>) -> (
    response: Response)
    requires
        lifecycle::outcome_before_ready(method) is NotReadyError ==> !(*state is Ready),
    ensures
        response.answers(id@, fallback(method, *state)),
{
    match lifecycle::pre_ready_outcome(method) {
        PreReadyOutcome::NotReadyError => {
            let message = match lifecycle::require_ready(state) {
                Ok(_) => String::new(),
                Err(error) => error.message,
            };
            Response::failure(
                id,
                ResponseError::new(error_codes::REQUEST_FAILED, message.as_str()),
            )
        },
        PreReadyOutcome::Null => Response::success(id, Json::Null),
        PreReadyOutcome::Empty => Response::success(id, empty_result(method)),
    }
}

/// Where a request goes.
pub enum Route {
    /// It initializes the server.
    Initialize,
    /// It shuts the server down.
    Shutdown,
    /// It arrived before `initialize`.
    TooEarly,
    /// It is answered with its own parameters.
    Echo,
    /// The services answer it.
    Delegate,
    /// It is answered with the report.
    Doctor,
    /// It is a command that needs a ready workspace.
    Unavailable(Seq<char>),
    /// It is a command that there is not.
    UnknownCommand(Seq<char>),
    /// It is answered as before the workspace is ready.
    Fallback(Method),
    /// There is no such method.
    Unhandled,
}

impl<S> ServerCore<S> {
    /// Where a command goes. A request without a command names the command "null".
    pub open spec fn command_route(self, command: Option<Seq<char>>) -> Route {
        let name = match command {
            Some(name) => name,
            None => "null"@,
        };
        let ready = self.state is Ready;
        if command is None {
            Route::UnknownCommand("null"@)
        } else if name == commands::DOCTOR@ {
            Route::Doctor
        } else if name == commands::REINDEX@ {
            if ready {
                Route::Delegate
            } else {
                Route::Unavailable("reindex"@)
            }
        } else if name == commands::COMPILE@ {
            if ready {
                Route::Delegate
            } else {
                Route::Unavailable("compile"@)
            }
        } else if name == commands::PC_PLUGIN_STATUS@ {
            if ready {
                Route::Delegate
            } else {
                Route::Unavailable("pc plugin status"@)
            }
        } else {
            Route::UnknownCommand(name)
        }
    }

    /// Where a request goes.
    pub open spec fn route(self, method: Seq<char>, params: JsonV) -> Route {
        let ready = self.state is Ready;
        if method == "initialize"@ {
            Route::Initialize
        } else if method == "shutdown"@ {
            Route::Shutdown
        } else if !self.initialized {
            Route::TooEarly
        } else if method == "completionItem/resolve"@ {
            if ready {
                Route::Delegate
            } else {
                Route::Echo
            }
        } else if method == "workspace/executeCommand"@ {
            self.command_route(config::string_member(params, "command"@))
        } else {
            match readiness(method) {
                Some(kind) => if ready {
                    Route::Delegate
                } else {
                    Route::Fallback(kind)
                },
                None => Route::Unhandled,
            }
        }
    }

    /// `cx` is what a handler is given for a request.
    pub open spec fn gives(self, request: &Request, cx: RequestContext<'_, S>) -> bool {
        &&& cx.request == request
        &&& self.state == WorkspaceState::Ready(*cx.services)
        &&& logging::optional_text(cx.workspace_root) == string_view(self.workspace_root)
        &&& *cx.documents == self.docs
        &&& cx.shutting_down == self.shutting_down
    }

    /// `response` may be what the services answer to a request.
    pub open spec fn delegated<H: Handlers<S>>(
        self,
        handlers: &H,
        request: &Request,
        response: Response,
    ) -> bool {
        exists|cx: RequestContext<'_, S>| #[trigger]
            call_ensures(H::handle, (handlers, cx), response) && self.gives(request, cx)
    }

    /// The directory of the offline report: the root, or the current directory.
    pub open spec fn report_root(self) -> Seq<char> {
        match self.workspace_root {
            Some(root) => root@,
            None => "."@,
        }
    }

    /// `live` may be the report of the services, none where they are not ready.
    pub open spec fn live_report<H: Handlers<S>>(
        self,
        handlers: &H,
        live: Option<DoctorReport>,
    ) -> bool {
        match self.state {
            WorkspaceState::Ready(services) => exists|root: Option<&str>| #[trigger]
                call_ensures(H::doctor, (handlers, &services, root), live)
                    && logging::optional_text(root) == string_view(self.workspace_root),
            _ => live is None,
        }
    }

    /// `report` may be the report on the server: that of the services, else the offline
    /// one.
    pub open spec fn reported<
        H: Handlers<S>,
        P: Fn(&str) -> Option<String>,
        N: Fn(&str) -> String,
        O: Fn(&str) -> DoctorReport,
    >(self, handlers: &H, host: Host<P, N, O>, report: DoctorReport) -> bool {
        ||| self.live_report(handlers, Some(report))
        ||| self.live_report(handlers, None) && host.reports(self.report_root(), report)
    }
}

/// What the `doctor` command is answered with a report: a text with the state of the
/// workspace above it, or the JSON with a member for the state.
pub open spec fn doctor_answer(report: DoctorReport, status: Seq<char>, as_json: bool) -> JsonV {
    if as_json {
        JsonV::Object(doctor::report_json(report)->Object_0.push(("state"@, JsonV::Str(status))))
    } else {
        JsonV::Str("state: "@ + status + "\n\n"@ + doctor::report_text(report))
    }
}

/// What the `doctor` command is answered with a report.
pub fn doctor_value(report: &DoctorReport, status: &str, as_json: bool) -> (value: Json)
    ensures
        value@ == doctor_answer(*report, status@, as_json),
{
    broadcast use json::lemma_views;

    if as_json {
        let rendered = report.render_json();
        match rendered {
            Json::Object(members) => {
                let mut members = members;
                assert(json::member_views(members@) == doctor::report_json(*report)->Object_0);
                json::put(&mut members, "state", json::string(status));
                json::object(members)
            },
            _ => rendered,
        }
    } else {
        let s = text::with("state: ".to_owned(), status);
        let s = text::with(s, "\n\n");
        let s = text::with(s, report.render_text().as_str());
        Json::Str(s)
    }
}

/// `response` may answer the `doctor` command.
pub open spec fn doctor_answered<
    S,
    H: Handlers<S>,
    P: Fn(&str) -> Option<String>,
    N: Fn(&str) -> String,
    O: Fn(&str) -> DoctorReport,
>(
    core: ServerCore<S>,
    handlers: &H,
    host: Host<P, N, O>,
    params: JsonV,
    value: JsonV,
) -> bool {
    exists|report: DoctorReport| #[trigger]
        core.reported(handlers, host, report) && value == doctor_answer(
            report,
            core.state.status(),
            params::asks_for_json(params),
        )
}

/// Whether the outcome of `initialize` is the one of a server with this legend.
pub open spec fn initialize_answered(value: JsonV, legend: SemanticTokensLegend) -> bool {
    exists|result: InitializeResult| #[trigger]
        capabilities::is_initialize_result(result, legend) && value
            == capabilities::initialize_json(result)
}

/// `response` and `after` may be what a request is answered and what it makes of the
/// server, where it goes by the given route.
pub open spec fn routed<
    S,
    H: Handlers<S>,
    P: Fn(&str) -> Option<String>,
    N: Fn(&str) -> String,
    O: Fn(&str) -> DoctorReport,
>(
    before: ServerCore<S>,
    after: ServerCore<S>,
    handlers: &H,
    host: Host<P, N, O>,
    request: &Request,
    response: Response,
    route: Route,
) -> bool {
    let id = request.id@;
    match route {
        Route::Initialize => {
            &&& before.initialized_to(host, request.params@, after)
            &&& response.id@ == id && response.error is None && response.result is Some
            &&& initialize_answered(response.result->0@, host.legend)
        },
        Route::Shutdown => before.shut_down_to(after) && response.answers(id, Ok(JsonV::Null)),
        Route::TooEarly => after == before && response.answers(
            id,
            Err(
                jsonrpc::error_view(
                    error_codes::SERVER_NOT_INITIALIZED,
                    "received "@ + request.method@ + " before initialize"@,
                ),
            ),
        ),
        Route::Echo => after == before && response.answers(id, Ok(request.params@)),
        Route::Delegate => after == before && before.delegated(handlers, request, response),
        Route::Doctor => {
            &&& after == before
            &&& response.id@ == id && response.error is None && response.result is Some
            &&& doctor_answered(before, handlers, host, request.params@, response.result->0@)
        },
        Route::Unavailable(action) => after == before && response.answers(
            id,
            Ok(JsonV::Str(action + " unavailable: workspace is "@ + before.state.status())),
        ),
        Route::UnknownCommand(name) => after == before && response.answers(
            id,
            Err(
                jsonrpc::error_view(
                    error_codes::INVALID_PARAMS,
                    "unknown command '"@ + name + "'"@,
                ),
            ),
        ),
        Route::Fallback(method) => after == before && response.answers(
            id,
            fallback(method, before.state),
        ),
        Route::Unhandled => after == before && response.answers(
            id,
            Err(
                jsonrpc::error_view(
                    error_codes::METHOD_NOT_FOUND,
                    "unhandled request: "@ + request.method@,
                ),
            ),
        ),
    }
}

/// `response` and `after` may be what a request is answered and what it makes of the
/// server.
pub open spec fn request_answered<
    S,
    H: Handlers<S>,
    P: Fn(&str) -> Option<String>,
    N: Fn(&str) -> String,
    O: Fn(&str) -> DoctorReport,
>(
    before: ServerCore<S>,
    after: ServerCore<S>,
    handlers: &H,
    host: Host<P, N, O>,
    request: &Request,
    response: Response,
) -> bool {
    routed(
        before,
        after,
        handlers,
        host,
        request,
        response,
        before.route(request.method@, request.params@),
    )
}

fn root_text<S>(core: &ServerCore<S>) -> (root: Option<&str>)
    ensures
        logging::optional_text(root) == string_view(core.workspace_root),
{
    match &core.workspace_root {
        Some(root) => Some(root.as_str()),
        None => None,
    }
}

/// Hands a request to the services. Without services there is no answer.
pub fn ready_handle<S, H: Handlers<S>>(core: &ServerCore<S>, handlers: &H, request: &Request) -> (
    response: Option<Response>)
    ensures
        match response {
            Some(response) => core.state is Ready && core.delegated(handlers, request, response),
            None => !(core.state is Ready),
        },
{
    match core.state.ready() {
        Some(services) => {
            let cx = RequestContext {
                request,
                services,
                workspace_root: root_text(core),
                documents: &core.docs,
                shutting_down: core.shutting_down,
            };
            let ghost given = cx;
            let response = handlers.handle(cx);
            assert(call_ensures(H::handle, (handlers, given), response) && core.gives(
                request,
                given,
            ));
            Some(response)
        },
        None => None,
    }
}

/// The answer to the `doctor` command.
pub fn doctor_result<
    S,
    H: Handlers<S>,
    P: Fn(&str) -> Option<String>,
    N: Fn(&str) -> String,
    O: Fn(&str) -> DoctorReport,
>(core: &ServerCore<S>, handlers: &H, host: &Host<P, N, O>, params: &Json) -> (value: Json)
    requires
        host.answers(),
    ensures
        doctor_answered(*core, handlers, *host, params@, value@),
{
    let live = match core.state.ready() {
        Some(services) => {
            let root = root_text(core);
            let live = handlers.doctor(services, root);
            assert(call_ensures(H::doctor, (handlers, services, root), live));
            live
        },
        None => None,
    };
    assert(core.live_report(handlers, live));
    let report = match live {
        Some(report) => report,
        None => {
            let root = match &core.workspace_root {
                Some(root) => root.as_str(),
                None => ".",
            };
            let report = (host.offline)(root);
            assert(host.reports(core.report_root(), report));
            report
        },
    };
    assert(core.reported(handlers, *host, report));
    doctor_value(
        &report,
        core.state.status_line().as_str(),
        params::doctor_json_requested(params),
    )
}

fn unavailable<S>(core: &ServerCore<S>, request: &Request, action: &str) -> (response: Response)
    ensures
        response.answers(
            request.id@,
            Ok(JsonV::Str(action@ + " unavailable: workspace is "@ + core.state.status())),
        ),
{
    let s = text::with(action.to_owned(), " unavailable: workspace is ");
    let s = text::with(s, core.state.status_line().as_str());
    Response::success(request.id.clone(), Json::Str(s))
}

/// Takes a `workspace/executeCommand` request.
pub fn execute_command<
    S,
    H: Handlers<S>,
    P: Fn(&str) -> Option<String>,
    N: Fn(&str) -> String,
    O: Fn(&str) -> DoctorReport,
>(core: &ServerCore<S>, handlers: &H, host: &Host<P, N, O>, request: &Request) -> (response: Response)
    requires
        host.answers(),
    ensures
        routed(
            *core,
            *core,
            handlers,
            *host,
            request,
            response,
            core.command_route(config::string_member(request.params@, "command"@)),
        ),
{
    let command = config::string_of(&request.params, "command");
    let name = match &command {
        Some(name) => name.as_str(),
        None => "null",
    };
    if command.is_some() {
        if text::same_text(name, commands::DOCTOR) {
            let value = doctor_result(core, handlers, host, &request.params);
            return Response::success(request.id.clone(), value);
        }
        let reindex = text::same_text(name, commands::REINDEX);
        let compile = text::same_text(name, commands::COMPILE);
        if reindex || compile || text::same_text(name, commands::PC_PLUGIN_STATUS) {
            return match ready_handle(core, handlers, request) {
                Some(response) => response,
                None => unavailable(
                    core,
                    request,
                    if reindex {
                        "reindex"
                    } else if compile {
                        "compile"
                    } else {
                        "pc plugin status"
                    },
                ),
            };
        }
    }
    let message = text::with(text::with("unknown command '".to_owned(), name), "'");
    Response::failure(
        request.id.clone(),
        ResponseError::new(error_codes::INVALID_PARAMS, message.as_str()),
    )
}

/// Takes a request.
pub fn dispatch_request<
    S,
    H: Handlers<S>,
    P: Fn(&str) -> Option<String>,
    N: Fn(&str) -> String,
    O: Fn(&str) -> DoctorReport,
>(core: &mut ServerCore<S>, handlers: &H, host: &Host<P, N, O>, request: &Request) -> (
    response: Response)
    requires
        host.answers(),
    ensures
        request_answered(*old(core), *final(core), handlers, *host, request, response),
{
    let method = request.method.as_str();
    if text::same_text(method, "initialize") {
        let result = core.initialize(host, &request.params);
        let value = result.to_json();
        assert(initialize_answered(value@, host.legend));
        return Response::success(request.id.clone(), value);
    }
    if text::same_text(method, "shutdown") {
        core.shutdown();
        return Response::success(request.id.clone(), Json::Null);
    }
    if !core.initialized {
        let message = text::with(text::with("received ".to_owned(), method), " before initialize");
        return Response::failure(
            request.id.clone(),
            ResponseError::new(error_codes::SERVER_NOT_INITIALIZED, message.as_str()),
        );
    }
    if text::same_text(method, "completionItem/resolve") {
        return match ready_handle(core, handlers, request) {
            Some(response) => response,
            None => Response::success(request.id.clone(), request.params.copy()),
        };
    }
    if text::same_text(method, "workspace/executeCommand") {
        return execute_command(core, handlers, host, request);
    }
    match readiness_method(method) {
        Some(kind) => match ready_handle(core, handlers, request) {
            Some(response) => response,
            None => pre_ready_response(request.id.clone(), kind, &core.state),
        },
        None => {
            let message = text::with("unhandled request: ".to_owned(), method);
            Response::failure(
                request.id.clone(),
                ResponseError::new(error_codes::METHOD_NOT_FOUND, message.as_str()),
            )
        },
    }
}

/// What is to be done about a notification.
#[derive(Debug, PartialEq, Eq)]
pub enum NoteAction {
    Nothing,
    /// The server ends.
    Stop,
    /// The bootstrap is to be started on a worker.
    Bootstrap { root: Option<String> },
    /// The hook for an opened document is to be called.
    Opened { uri: String, text: String },
    /// The hook for a changed document is to be called.
    Changed { uri: String, text: String },
    /// The hook for a closed document is to be called.
    Closed { uri: String },
    /// The hook for a saved document is to be called.
    Saved { uri: String },
    /// The hook for a changed configuration is to be called.
    ConfigurationChanged,
    /// The notification was dropped. The message goes to the log.
    Dropped { message: String },
}

/// The model of what is to be done about a notification.
pub enum NoteActionV {
    Nothing,
    Stop,
    Bootstrap(Option<Seq<char>>),
    Opened(Seq<char>, Seq<char>),
    Changed(Seq<char>, Seq<char>),
    Closed(Seq<char>),
    Saved(Seq<char>),
    ConfigurationChanged,
    Dropped(Seq<char>),
}

impl View for NoteAction {
    type V = NoteActionV;

    open spec fn view(&self) -> NoteActionV {
        match self {
            NoteAction::Nothing => NoteActionV::Nothing,
            NoteAction::Stop => NoteActionV::Stop,
            NoteAction::Bootstrap { root } => NoteActionV::Bootstrap(string_view(*root)),
            NoteAction::Opened { uri, text } => NoteActionV::Opened(uri@, text@),
            NoteAction::Changed { uri, text } => NoteActionV::Changed(uri@, text@),
            NoteAction::Closed { uri } => NoteActionV::Closed(uri@),
            NoteAction::Saved { uri } => NoteActionV::Saved(uri@),
            NoteAction::ConfigurationChanged => NoteActionV::ConfigurationChanged,
            NoteAction::Dropped { message } => NoteActionV::Dropped(message@),
        }
    }
}

/// What the documents of a server are: for each open URI its text and version.
pub type DocsV = Map<Seq<char>, (Seq<char>, i64)>;

impl<S> ServerCore<S> {
    /// `after` is the server with other documents.
    pub open spec fn with_docs(self, after: ServerCore<S>, docs: DocsV) -> bool {
        &&& after.docs@ == docs
        &&& after.state == self.state
        &&& after.workspace_root == self.workspace_root
        &&& after.shutting_down == self.shutting_down
        &&& after.initialized == self.initialized
        &&& after.reload_requested == self.reload_requested
        &&& after.bootstrapping == self.bootstrapping
    }

    /// A hook is called only while the workspace is ready.
    pub open spec fn hooked(self, hook: NoteActionV) -> NoteActionV {
        if self.state is Ready {
            hook
        } else {
            NoteActionV::Nothing
        }
    }

    /// What a `didOpen` notification does.
    pub open spec fn opened(
        self,
        after: ServerCore<S>,
        document: Option<Seq<char>>,
        params: JsonV,
        action: NoteActionV,
    ) -> bool {
        match document {
            Some(uri) => match params::nested_text(params, "textDocument"@, "text"@) {
                Some(text) => {
                    let version = match params::document_version_in(params) {
                        Some(version) => version as i64,
                        None => 0,
                    };
                    &&& self.with_docs(after, self.docs@.insert(uri, (text, version)))
                    &&& action == self.hooked(NoteActionV::Opened(uri, text))
                },
                None => after == self && action is Nothing,
            },
            None => after == self && action is Nothing,
        }
    }

    /// What a list of change events to a document does. A ranged event for a document
    /// that is not open is dropped, as is a change beyond 32-bit offsets.
    pub open spec fn changed_by(
        self,
        after: ServerCore<S>,
        uri: Seq<char>,
        version: Option<int>,
        changes: Seq<ContentChange>,
        action: NoteActionV,
    ) -> bool {
        let open = self.docs@.contains_key(uri);
        let before = if open {
            self.docs@[uri]
        } else {
            (Seq::<char>::empty(), 0i64)
        };
        if changes.len() == 0 {
            after == self && action is Nothing
        } else if !open && documents::any_ranged(changes) {
            &&& self.with_docs(after, self.docs@)
            &&& action == NoteActionV::Dropped(
                "ls-server: dropping a ranged didChange for "@ + uri
                    + ": the buffer was never opened"@,
            )
        } else if open && !documents::foldable(before.0, changes) {
            &&& after == self
            &&& action == NoteActionV::Dropped(
                "ls-server: dropping a didChange for "@ + uri + ": the buffer is too large"@,
            )
        } else {
            let text = documents::changed_all(before.0, changes);
            let version = match version {
                Some(version) => version as i64,
                None => before.1,
            };
            &&& self.with_docs(after, self.docs@.insert(uri, (text, version)))
            &&& action == self.hooked(NoteActionV::Changed(uri, text))
        }
    }

    /// What a `didChange` notification does to a document.
    pub open spec fn changed_in(
        self,
        after: ServerCore<S>,
        uri: Seq<char>,
        params: JsonV,
        action: NoteActionV,
    ) -> bool {
        exists|changes: Seq<ContentChange>|
            params::content_changes_in(params) == Some(#[trigger] params::change_views(changes))
                && self.changed_by(
                after,
                uri,
                params::document_version_in(params),
                changes,
                action,
            )
    }

    /// What a `didChange` notification does.
    pub open spec fn changed(
        self,
        after: ServerCore<S>,
        document: Option<Seq<char>>,
        params: JsonV,
        action: NoteActionV,
    ) -> bool {
        match document {
            Some(uri) => if params::content_changes_in(params) is None {
                &&& after == self
                &&& action == NoteActionV::Dropped(
                    "ls-server: ignoring a didChange with unparseable contentChanges for "@ + uri,
                )
            } else {
                self.changed_in(after, uri, params, action)
            },
            None => after == self && action is Nothing,
        }
    }

    /// What a `didClose` notification does.
    pub open spec fn closed(
        self,
        after: ServerCore<S>,
        document: Option<Seq<char>>,
        params: JsonV,
        action: NoteActionV,
    ) -> bool {
        match document {
            Some(uri) => {
                &&& self.with_docs(after, self.docs@.remove(uri))
                &&& action == self.hooked(NoteActionV::Closed(uri))
            },
            None => after == self && action is Nothing,
        }
    }

    /// What a `didSave` notification does. The text that it may carry replaces that of
    /// an open document.
    pub open spec fn saved(
        self,
        after: ServerCore<S>,
        document: Option<Seq<char>>,
        params: JsonV,
        action: NoteActionV,
    ) -> bool {
        match document {
            Some(uri) => {
                let docs = match config::string_member(params, "text"@) {
                    Some(text) => if self.docs@.contains_key(uri) {
                        self.docs@.insert(uri, (text, self.docs@[uri].1))
                    } else {
                        self.docs@
                    },
                    None => self.docs@,
                };
                &&& self.with_docs(after, docs)
                &&& action == self.hooked(NoteActionV::Saved(uri))
            },
            None => after == self && action is Nothing,
        }
    }

    /// What an `initialized` notification does: it starts the bootstrap unless it is
    /// running.
    pub open spec fn begun(self, after: ServerCore<S>, action: NoteActionV) -> bool {
        if self.bootstrapping {
            after == self && action is Nothing
        } else {
            &&& after.bootstrapping
            &&& after.state == self.state
            &&& after.docs == self.docs
            &&& after.workspace_root == self.workspace_root
            &&& after.shutting_down == self.shutting_down
            &&& after.initialized == self.initialized
            &&& after.reload_requested == self.reload_requested
            &&& action == NoteActionV::Bootstrap(string_view(self.workspace_root))
        }
    }

    /// What a notification does. One that is not known is ignored. `document` is the URI of
    /// the document that it speaks of, in normal form.
    pub open spec fn notified(
        self,
        after: ServerCore<S>,
        method: Seq<char>,
        document: Option<Seq<char>>,
        params: JsonV,
        action: NoteActionV,
    ) -> bool {
        if method == "initialized"@ {
            self.begun(after, action)
        } else if method == "exit"@ {
            after == self && action is Stop
        } else if method == "textDocument/didOpen"@ {
            self.opened(after, document, params, action)
        } else if method == "textDocument/didChange"@ {
            self.changed(after, document, params, action)
        } else if method == "textDocument/didClose"@ {
            self.closed(after, document, params, action)
        } else if method == "textDocument/didSave"@ {
            self.saved(after, document, params, action)
        } else if method == "workspace/didChangeConfiguration"@ {
            after == self && action == self.hooked(NoteActionV::ConfigurationChanged)
        } else {
            after == self && action is Nothing
        }
    }

    /// Takes a `didOpen` notification.
    pub fn did_open(&mut self, document: Option<String>, params: &Json) -> (action: NoteAction)
        ensures
            old(self).opened(*final(self), string_view(document), params@, action@),
    {
        let uri = match document {
            Some(uri) => uri,
            None => {
                return NoteAction::Nothing;
            },
        };
        let text = match params::document_text(params) {
            Some(text) => text,
            None => {
                return NoteAction::Nothing;
            },
        };
        let version: i64 = match params::document_version(params) {
            Some(version) => version,
            None => 0,
        };
        self.docs.open_versioned(uri.as_str(), text.as_str(), version);
        if self.state.is_ready() {
            NoteAction::Opened { uri, text }
        } else {
            NoteAction::Nothing
        }
    }

    /// Takes a `didChange` notification.
    pub fn did_change(&mut self, document: Option<String>, params: &Json) -> (action: NoteAction)
        ensures
            old(self).changed(*final(self), string_view(document), params@, action@),
    {
        let uri = match document {
            Some(uri) => uri,
            None => {
                return NoteAction::Nothing;
            },
        };
        let changes = match params::content_changes(params) {
            Some(changes) => changes,
            None => {
                return NoteAction::Dropped {
                    message: text::with(
                        "ls-server: ignoring a didChange with unparseable contentChanges for ".to_owned(),
                        uri.as_str(),
                    ),
                };
            },
        };
        let version = params::document_version(params);
        let action = self.apply_changes(uri, version, &changes);
        assert(params::content_changes_in(params@) == Some(params::change_views(changes@)));
        action
    }

    /// Applies change events to a document.
    fn apply_changes(
        &mut self,
        uri: String,
        version: Option<i64>,
        changes: &Vec<ContentChange>,
    ) -> (action: NoteAction)
        ensures
            old(self).changed_by(
                *final(self),
                uri@,
                match version {
                    Some(version) => Some(version as int),
                    None => None,
                },
                changes@,
                action@,
            ),
    {
        if changes.len() == 0 {
            return NoteAction::Nothing;
        }
        if !self.docs.fits(uri.as_str(), changes.as_slice()) {
            let message = text::with(
                "ls-server: dropping a didChange for ".to_owned(),
                uri.as_str(),
            );
            return NoteAction::Dropped {
                message: text::with(message, ": the buffer is too large"),
            };
        }
        match self.docs.apply_changes(uri.as_str(), version, changes.as_slice()) {
            Some(text) => {
                if self.state.is_ready() {
                    NoteAction::Changed { uri, text }
                } else {
                    NoteAction::Nothing
                }
            },
            None => {
                let message = text::with(
                    "ls-server: dropping a ranged didChange for ".to_owned(),
                    uri.as_str(),
                );
                NoteAction::Dropped {
                    message: text::with(message, ": the buffer was never opened"),
                }
            },
        }
    }

    /// Takes a `didClose` notification.
    pub fn did_close(&mut self, document: Option<String>, params: &Json) -> (action: NoteAction)
        ensures
            old(self).closed(*final(self), string_view(document), params@, action@),
    {
        let uri = match document {
            Some(uri) => uri,
            None => {
                return NoteAction::Nothing;
            },
        };
        self.docs.close(uri.as_str());
        if self.state.is_ready() {
            NoteAction::Closed { uri }
        } else {
            NoteAction::Nothing
        }
    }

    /// Takes a `didSave` notification.
    pub fn did_save(&mut self, document: Option<String>, params: &Json) -> (action: NoteAction)
        ensures
            old(self).saved(*final(self), string_view(document), params@, action@),
    {
        let uri = match document {
            Some(uri) => uri,
            None => {
                return NoteAction::Nothing;
            },
        };
        match config::string_of(params, "text") {
            Some(text) => {
                if self.docs.is_open(uri.as_str()) {
                    self.docs.change(uri.as_str(), text.as_str());
                }
            },
            None => {},
        }
        if self.state.is_ready() {
            NoteAction::Saved { uri }
        } else {
            NoteAction::Nothing
        }
    }

    /// Takes an `initialized` notification.
    pub fn begin_bootstrap(&mut self) -> (action: NoteAction)
        ensures
            old(self).begun(*final(self), action@),
    {
        if self.bootstrapping {
            return NoteAction::Nothing;
        }
        self.bootstrapping = true;
        NoteAction::Bootstrap {
            root: match &self.workspace_root {
                Some(root) => Some(root.clone()),
                None => None,
            },
        }
    }
}

/// Takes a notification. `document` is the URI of the document that it speaks of, in normal
/// form.
pub fn dispatch_notification<S>(
    core: &mut ServerCore<S>,
    document: Option<String>,
    note: &Notification,
) -> (action: NoteAction)
    ensures
        old(core).notified(
            *final(core),
            note.method@,
            string_view(document),
            note.params@,
            action@,
        ),
{
    let method = note.method.as_str();
    if text::same_text(method, "initialized") {
        core.begin_bootstrap()
    } else if text::same_text(method, "exit") {
        NoteAction::Stop
    } else if text::same_text(method, "textDocument/didOpen") {
        core.did_open(document, &note.params)
    } else if text::same_text(method, "textDocument/didChange") {
        core.did_change(document, &note.params)
    } else if text::same_text(method, "textDocument/didClose") {
        core.did_close(document, &note.params)
    } else if text::same_text(method, "textDocument/didSave") {
        core.did_save(document, &note.params)
    } else if text::same_text(method, "workspace/didChangeConfiguration") {
        if core.state.is_ready() {
            NoteAction::ConfigurationChanged
        } else {
            NoteAction::Nothing
        }
    } else {
        NoteAction::Nothing
    }
}

impl<S> ServerCore<S> {
    /// `after` is the server with the given state, and without a worker.
    pub open spec fn settled(self, after: ServerCore<S>) -> bool {
        &&& !after.bootstrapping
        &&& after.docs == self.docs
        &&& after.workspace_root == self.workspace_root
        &&& after.shutting_down == self.shutting_down
        &&& after.initialized == self.initialized
        &&& after.reload_requested == self.reload_requested
    }

    /// Services that a worker made ready are handed the open documents.
    pub open spec fn replayed<B: Bootstrap<S>>(
        self,
        bootstrap: &B,
        result: Option<WorkspaceState<S>>,
    ) -> bool {
        match result {
            Some(WorkspaceState::Ready(services)) => call_ensures(
                B::replay,
                (bootstrap, &services, &self.docs),
                (),
            ),
            _ => true,
        }
    }

    /// What the end of the worker does: its result becomes the state of the workspace,
    /// services that became ready are handed the open documents, and a worker without a
    /// result has failed. After a shutdown the result is discarded.
    pub open spec fn adopted<B: Bootstrap<S>>(
        self,
        bootstrap: &B,
        result: Option<WorkspaceState<S>>,
        after: ServerCore<S>,
    ) -> bool {
        &&& self.settled(after)
        &&& !self.shutting_down ==> self.replayed(bootstrap, result)
        &&& if self.shutting_down {
            after.state == self.state
        } else {
            match result {
                Some(state) => after.state == state,
                None => match after.state {
                    WorkspaceState::Failed { detail } => detail@
                        == "bootstrap worker terminated without a result"@,
                    _ => false,
                },
            }
        }
    }

    /// What a look at the worker does.
    pub open spec fn polled<B: Bootstrap<S>>(
        self,
        bootstrap: &B,
        poll: WorkerPoll<S>,
        after: ServerCore<S>,
    ) -> bool {
        if !self.bootstrapping {
            after == self
        } else {
            match poll {
                WorkerPoll::Pending => after == self,
                WorkerPoll::Finished(state) => self.adopted(bootstrap, Some(state), after),
                WorkerPoll::Gone => self.adopted(bootstrap, None, after),
            }
        }
    }

    /// What a change of the build targets does: a ready workspace is built anew, once.
    /// While the workspace is not ready the change waits.
    pub open spec fn reloaded<B: Bootstrap<S>>(self, bootstrap: &B, after: ServerCore<S>) -> bool {
        if self.shutting_down || !self.reload_requested {
            after == self
        } else {
            match self.state {
                WorkspaceState::Ready(services) => {
                    &&& call_ensures(B::reload, (bootstrap, services, &self.docs), after.state)
                    &&& !after.reload_requested
                    &&& after.docs == self.docs
                    &&& after.workspace_root == self.workspace_root
                    &&& after.shutting_down == self.shutting_down
                    &&& after.initialized == self.initialized
                    &&& after.bootstrapping == self.bootstrapping
                },
                _ => after == self,
            }
        }
    }

    /// Forgets the worker.
    pub fn detach_bootstrap(&mut self)
        ensures
            old(self).settled(*final(self)),
            final(self).state == old(self).state,
    {
        self.bootstrapping = false;
    }

    /// The build targets changed.
    pub fn request_reload(&mut self)
        ensures
            final(self).reload_requested,
            final(self).state == old(self).state,
            final(self).docs == old(self).docs,
            final(self).workspace_root == old(self).workspace_root,
            final(self).shutting_down == old(self).shutting_down,
            final(self).initialized == old(self).initialized,
            final(self).bootstrapping == old(self).bootstrapping,
    {
        self.reload_requested = true;
    }
}

/// Takes the end of the worker. Services that became ready are handed the open
/// documents.
pub fn adopt_bootstrap<S, B: Bootstrap<S>>(
    core: &mut ServerCore<S>,
    bootstrap: &B,
    result: Option<WorkspaceState<S>>,
)
    ensures
        old(core).adopted(bootstrap, result, *final(core)),
{
    if core.shutting_down {
        core.detach_bootstrap();
        return;
    }
    core.bootstrapping = false;
    core.state = match result {
        Some(state) => {
            match state.ready() {
                Some(services) => {
                    bootstrap.replay(services, &core.docs);
                    assert(call_ensures(B::replay, (bootstrap, services, &core.docs), ()));
                },
                None => {},
            }
            state
        },
        None => WorkspaceState::Failed {
            detail: "bootstrap worker terminated without a result".to_owned(),
        },
    };
}

/// Looks at the worker.
pub fn poll_bootstrap<S, B: Bootstrap<S>>(
    core: &mut ServerCore<S>,
    bootstrap: &B,
    poll: WorkerPoll<S>,
)
    ensures
        old(core).polled(bootstrap, poll, *final(core)),
{
    if !core.bootstrapping {
        return;
    }
    match poll {
        WorkerPoll::Pending => {},
        WorkerPoll::Finished(state) => adopt_bootstrap(core, bootstrap, Some(state)),
        WorkerPoll::Gone => adopt_bootstrap(core, bootstrap, None),
    }
}

/// Builds a ready workspace anew if the build targets changed.
pub fn poll_reload<S, B: Bootstrap<S>>(core: &mut ServerCore<S>, bootstrap: &B)
    ensures
        old(core).reloaded(bootstrap, *final(core)),
{
    if core.shutting_down || !core.reload_requested || !core.state.is_ready() {
        return;
    }
    core.reload_requested = false;
    let mut taken = WorkspaceState::NotReady { detail: "reloading the build model".to_owned() };
    std::mem::swap(&mut taken, &mut core.state);
    match taken {
        WorkspaceState::Ready(services) => {
            let ghost given = services;
            let state = bootstrap.reload(services, &core.docs);
            assert(call_ensures(B::reload, (bootstrap, given, &core.docs), state));
            core.state = state;
        },
        other => {
            core.state = other;
        },
    }
}

/// Whether the server, at the end of its input, waits for its worker: a clean end does,
/// so that the workspace still becomes ready; behind `exit` or `shutdown` the worker is
/// forgotten.
pub fn end_of_input<S>(core: &mut ServerCore<S>, exiting: bool) -> (wait: bool)
    ensures
        wait == (old(core).bootstrapping && !exiting && !old(core).shutting_down),
        if exiting || old(core).shutting_down {
            old(core).settled(*final(core)) && final(core).state == old(core).state
        } else {
            *final(core) == *old(core)
        },
{
    if exiting || core.shutting_down {
        core.detach_bootstrap();
        return false;
    }
    core.bootstrapping
}

/// What a message does: the frame that is sent, if there is one, what is to be done, and
/// what the log is told of a version that is not newer.
pub struct Turn {
    pub frame: Option<Vec<u8>>,
    pub action: NoteAction,
    pub warning: Option<String>,
}

/// The bytes of the frame that is sent.
pub open spec fn sent(turn: Turn) -> Option<Seq<u8>> {
    match turn.frame {
        Some(bytes) => Some(bytes@),
        None => None,
    }
}

/// A request with the given parts is answered with a frame.
pub open spec fn request_turn<
    S,
    H: Handlers<S>,
    P: Fn(&str) -> Option<String>,
    N: Fn(&str) -> String,
    O: Fn(&str) -> DoctorReport,
>(
    before: ServerCore<S>,
    after: ServerCore<S>,
    handlers: &H,
    host: Host<P, N, O>,
    id: RequestIdV,
    method: Seq<char>,
    params: JsonV,
    turn: Turn,
) -> bool {
    exists|request: Request, response: Response| #[trigger]
        request_answered(before, after, handlers, host, &request, response) && request.id@ == id
            && request.method@ == method && request.params@ == params && sent(turn) == Some(
            jsonrpc::framed(json::printed(response.json())),
        ) && (response.is_plain() ==> json::denotes(
            json::printed(response.json()),
            response.json(),
        )) && turn.action@ is Nothing && turn.warning is None
}

/// How the id of a response reads.
pub open spec fn shown_reply(reply_to: Option<RequestIdV>) -> Seq<char> {
    match reply_to {
        None => "None"@,
        Some(RequestIdV::Number(n)) => "Some(Number("@ + numerals::decimal_int(n as int) + "))"@,
        Some(RequestIdV::Text(s)) => "Some(String("@ + text::quoted(s) + "))"@,
    }
}

/// What the log is told of a response that nothing waits for.
pub open spec fn unmatched_response(reply_to: Option<RequestIdV>) -> Seq<char> {
    "ls-server: ignoring a client response with no matching request (id: "@ + shown_reply(reply_to)
        + ")"@
}

fn unmatched_message(reply_to: &Option<RequestId>) -> (message: String)
    ensures
        message@ == unmatched_response(
            match *reply_to {
                Some(id) => Some(id@),
                None => None,
            },
        ),
{
    let shown = match reply_to {
        None => "None".to_owned(),
        Some(RequestId::Number(n)) => text::with(
            text::with("Some(Number(".to_owned(), numerals::numeral_int(*n).as_str()),
            "))",
        ),
        Some(RequestId::String(s)) => text::with(
            text::with("Some(String(".to_owned(), text::quote(s.as_str()).as_str()),
            "))",
        ),
    };
    let s = text::with(
        "ls-server: ignoring a client response with no matching request (id: ".to_owned(),
        shown.as_str(),
    );
    text::with(s, ")")
}

impl<S> ServerCore<S> {
    /// What the log is told of a `didChange` whose version is not newer than the one of
    /// the document. Its edits are applied all the same.
    pub open spec fn stale_change(
        self,
        method: Seq<char>,
        document: Option<Seq<char>>,
        params: JsonV,
    ) -> Option<Seq<char>> {
        match (document, params::content_changes_in(params)) {
            (Some(uri), Some(changes)) => if method == "textDocument/didChange"@ && changes.len()
                > 0 {
                documents::stale_version(self.docs@, uri, params::document_version_in(params))
            } else {
                None
            },
            _ => None,
        }
    }

    /// What the log is told of a notification with a version that is not newer.
    pub fn version_warning(&self, document: &Option<String>, note: &Notification) -> (warning:
        Option<String>)
        ensures
            string_view(warning) == self.stale_change(
                note.method@,
                string_view(*document),
                note.params@,
            ),
    {
        if !text::same_text(note.method.as_str(), "textDocument/didChange") {
            return None;
        }
        match document {
            Some(uri) => match params::content_changes(&note.params) {
                Some(changes) => {
                    assert(params::change_views(changes@).len() == changes@.len());
                    if changes.len() == 0 {
                        return None;
                    }
                    self.docs.version_warning(
                        uri.as_str(),
                        params::document_version(&note.params),
                    )
                },
                None => None,
            },
            None => None,
        }
    }
}

/// What a notification does, with the URI that the machine gives its document.
pub open spec fn note_turn<
    S,
    P: Fn(&str) -> Option<String>,
    N: Fn(&str) -> String,
    O: Fn(&str) -> DoctorReport,
>(
    before: ServerCore<S>,
    after: ServerCore<S>,
    host: Host<P, N, O>,
    method: Seq<char>,
    params: JsonV,
    turn: Turn,
) -> bool {
    exists|document: Option<Seq<char>>| #[trigger]
        host.locates(params, document) && before.notified(
            after,
            method,
            document,
            params,
            turn.action@,
        ) && sent(turn) is None && string_view(turn.warning) == before.stale_change(
            method,
            document,
            params,
        )
}

/// What the body of a frame does.
pub open spec fn taken<
    S,
    H: Handlers<S>,
    P: Fn(&str) -> Option<String>,
    N: Fn(&str) -> String,
    O: Fn(&str) -> DoctorReport,
>(
    before: ServerCore<S>,
    after: ServerCore<S>,
    handlers: &H,
    host: Host<P, N, O>,
    body: Seq<u8>,
    turn: Turn,
) -> bool {
    match jsonrpc::incoming_of(body) {
        Ok(IncomingV::Request { id, method, params }) => request_turn(
            before,
            after,
            handlers,
            host,
            id,
            method,
            params,
            turn,
        ),
        Ok(IncomingV::Notification { method, params }) => note_turn(
            before,
            after,
            host,
            method,
            params,
            turn,
        ),
        Ok(IncomingV::Response { reply_to, .. }) => after == before && sent(turn) is None
            && turn.action@ == NoteActionV::Dropped(unmatched_response(reply_to))
            && turn.warning is None,
        Err(error) => after == before && turn.action@ is Nothing && sent(turn) == Some(
            jsonrpc::framed(json::printed(jsonrpc::null_id_error_json(error))),
        ) && turn.warning is None,
    }
}

/// Takes the body of a frame: a request is answered, a notification is not, a response
/// of the client is dropped, and anything else is answered with an error.
pub fn take_body<
    S,
    H: Handlers<S>,
    P: Fn(&str) -> Option<String>,
    N: Fn(&str) -> String,
    O: Fn(&str) -> DoctorReport,
>(core: &mut ServerCore<S>, handlers: &H, host: &Host<P, N, O>, body: &[u8]) -> (turn: Turn)
    requires
        host.answers(),
    ensures
        taken(*old(core), *final(core), handlers, *host, body@, turn),
{
    match jsonrpc::parse_incoming(body) {
        Ok(Incoming::Request(request)) => {
            let response = dispatch_request(core, handlers, host, &request);
            let frame = jsonrpc::write_response(&response);
            let turn = Turn { frame: Some(frame), action: NoteAction::Nothing, warning: None };
            assert(request_answered(*old(core), *core, handlers, *host, &request, response));
            turn
        },
        Ok(Incoming::Notification(note)) => {
            let document = host.document_uri(&note.params);
            let ghost uri = string_view(document);
            let warning = core.version_warning(&document, &note);
            let action = dispatch_notification(core, document, &note);
            assert(host.locates(note.params@, uri));
            Turn { frame: None, action, warning }
        },
        Ok(Incoming::Response(response)) => Turn {
            frame: None,
            action: NoteAction::Dropped { message: unmatched_message(&response.id) },
            warning: None,
        },
        Err(error) => Turn {
            frame: Some(jsonrpc::write_null_id_error(&error)),
            action: NoteAction::Nothing,
            warning: None,
        },
    }
}

/// What a turn does: the worker is looked at, a change of the build targets is taken,
/// and then the message, so that it meets the freshest state.
pub open spec fn turned<
    S,
    H: Handlers<S>,
    B: Bootstrap<S>,
    P: Fn(&str) -> Option<String>,
    N: Fn(&str) -> String,
    O: Fn(&str) -> DoctorReport,
>(
    before: ServerCore<S>,
    after: ServerCore<S>,
    handlers: &H,
    bootstrap: &B,
    host: Host<P, N, O>,
    poll: WorkerPoll<S>,
    body: Seq<u8>,
    turn: Turn,
) -> bool {
    exists|polled: ServerCore<S>, fresh: ServerCore<S>|
        #![trigger before.polled(bootstrap, poll, polled), polled.reloaded(bootstrap, fresh)]
        before.polled(bootstrap, poll, polled) && polled.reloaded(bootstrap, fresh) && taken(
            fresh,
            after,
            handlers,
            host,
            body,
            turn,
        )
}

/// Takes a turn with the body of a frame.
pub fn take_turn<
    S,
    H: Handlers<S>,
    B: Bootstrap<S>,
    P: Fn(&str) -> Option<String>,
    N: Fn(&str) -> String,
    O: Fn(&str) -> DoctorReport,
>(
    core: &mut ServerCore<S>,
    handlers: &H,
    bootstrap: &B,
    host: &Host<P, N, O>,
    poll: WorkerPoll<S>,
    body: &[u8],
) -> (turn: Turn)
    requires
        host.answers(),
    ensures
        turned(*old(core), *final(core), handlers, bootstrap, *host, poll, body@, turn),
{
    poll_bootstrap(core, bootstrap, poll);
    let ghost polled = *core;
    poll_reload(core, bootstrap);
    let ghost fresh = *core;
    let turn = take_body(core, handlers, host, body);
    assert(old(core).polled(bootstrap, poll, polled) && polled.reloaded(
        bootstrap,
        fresh,
    ));
    turn
}

/// A server that is shutting down, with a workspace that is not ready, stays so whatever
/// message arrives and whatever its worker brings.
pub proof fn law_shutdown_is_final<
    S,
    H: Handlers<S>,
    B: Bootstrap<S>,
    P: Fn(&str) -> Option<String>,
    N: Fn(&str) -> String,
    O: Fn(&str) -> DoctorReport,
>(
    before: ServerCore<S>,
    after: ServerCore<S>,
    handlers: &H,
    bootstrap: &B,
    host: Host<P, N, O>,
    poll: WorkerPoll<S>,
    body: Seq<u8>,
    turn: Turn,
)
    requires
        turned(before, after, handlers, bootstrap, host, poll, body, turn),
        before.shutting_down,
        !(before.state is Ready),
    ensures
        after.shutting_down,
        !(after.state is Ready),
{
}

/// The first `shutdown` request leads to such a server.
pub proof fn law_shutdown_leaves_ready<S>(before: ServerCore<S>, after: ServerCore<S>)
    requires
        before.shut_down_to(after),
        !before.shutting_down,
    ensures
        after.shutting_down,
        !(after.state is Ready),
{
}

/// While the workspace is not ready no request reaches the services.
pub proof fn law_services_only_when_ready<S>(core: ServerCore<S>, method: Seq<char>, params: JsonV)
    requires
        !(core.state is Ready),
    ensures
        !(core.route(method, params) is Delegate),
{
}

/// Before `initialize` every request but that one and `shutdown` is refused.
pub proof fn law_initialize_comes_first<S>(core: ServerCore<S>, method: Seq<char>, params: JsonV)
    requires
        !core.initialized,
        method != "initialize"@,
        method != "shutdown"@,
    ensures
        core.route(method, params) is TooEarly,
{
}

/// A request is answered with one frame, and so is a body that denotes no message;
/// notifications and responses are not answered.
pub proof fn law_requests_are_answered<
    S,
    H: Handlers<S>,
    P: Fn(&str) -> Option<String>,
    N: Fn(&str) -> String,
    O: Fn(&str) -> DoctorReport,
>(
    before: ServerCore<S>,
    after: ServerCore<S>,
    handlers: &H,
    host: Host<P, N, O>,
    body: Seq<u8>,
    turn: Turn,
)
    requires
        taken(before, after, handlers, host, body, turn),
    ensures
        sent(turn) is Some <==> (match jsonrpc::incoming_of(body) {
            Ok(message) => message is Request,
            Err(_) => true,
        }),
{
}

/// What the server itself answers carries the id of the request.
pub proof fn law_answers_carry_the_id<
    S,
    H: Handlers<S>,
    P: Fn(&str) -> Option<String>,
    N: Fn(&str) -> String,
    O: Fn(&str) -> DoctorReport,
>(
    before: ServerCore<S>,
    after: ServerCore<S>,
    handlers: &H,
    host: Host<P, N, O>,
    request: &Request,
    response: Response,
)
    requires
        request_answered(before, after, handlers, host, request, response),
        !(before.route(request.method@, request.params@) is Delegate),
    ensures
        response.id@ == request.id@,
{
}

/// A change of the build targets waits until the workspace is ready, and is taken once.
pub proof fn law_reload_waits<S, B: Bootstrap<S>>(
    before: ServerCore<S>,
    bootstrap: &B,
    after: ServerCore<S>,
)
    requires
        before.reload_requested,
        !before.shutting_down,
        before.reloaded(bootstrap, after),
    ensures
        after.reload_requested <==> !(before.state is Ready),
        !(before.state is Ready) ==> after == before,
{
}

/// The result of a worker is adopted once: behind it there is no worker to look at.
pub proof fn law_adopted_once<S, B: Bootstrap<S>>(
    bootstrap: &B,
    before: ServerCore<S>,
    first: WorkerPoll<S>,
    between: ServerCore<S>,
    second: WorkerPoll<S>,
    after: ServerCore<S>,
)
    requires
        before.polled(bootstrap, first, between),
        !(first is Pending),
        between.polled(bootstrap, second, after),
    ensures
        after == between,
{
}

proof fn lemma_same_changes(s: Seq<char>, a: Seq<ContentChange>, b: Seq<ContentChange>)
    requires
        params::change_views(a) == params::change_views(b),
    ensures
        documents::changed_all(s, a) == documents::changed_all(s, b),
    decreases a.len(),
{
    let va = params::change_views(a);
    let vb = params::change_views(b);
    assert(va.len() == a.len() && vb.len() == b.len());
    if a.len() > 0 {
        assert(params::change_views(a.drop_last()) =~= va.drop_last());
        assert(params::change_views(b.drop_last()) =~= vb.drop_last());
        lemma_same_changes(s, a.drop_last(), b.drop_last());
        assert(va.last() == (a.last().range, a.last().text@));
        assert(vb.last() == (b.last().range, b.last().text@));
    }
}

proof fn lemma_same_ranges(s: Seq<char>, a: Seq<ContentChange>, b: Seq<ContentChange>)
    requires
        params::change_views(a) == params::change_views(b),
    ensures
        a.len() == b.len(),
        documents::any_ranged(a) ==> documents::any_ranged(b),
        documents::foldable(s, a) ==> documents::foldable(s, b),
{
    let va = params::change_views(a);
    let vb = params::change_views(b);
    assert(va.len() == a.len() && vb.len() == b.len());
    assert forall|i: int| 0 <= i < a.len() implies (#[trigger] a[i]).range == b[i].range by {
        assert(va[i].0 == a[i].range && vb[i].0 == b[i].range);
    }
    if documents::any_ranged(a) {
        let i = choose|i: int| 0 <= i < a.len() && (#[trigger] a[i]).range is Some;
        assert(b[i].range is Some);
    }
    if documents::foldable(s, a) {
        assert forall|i: int| 0 <= i < b.len() && (#[trigger] b[i]).range is Some implies
            crate::lines::indexable(documents::changed_all(s, b.take(i))) by {
            assert(a[i].range is Some);
            assert(params::change_views(a.take(i)) =~= va.take(i));
            assert(params::change_views(b.take(i)) =~= vb.take(i));
            lemma_same_changes(s, a.take(i), b.take(i));
        }
    }
}

/// A notification does the same to the documents whether the workspace is ready or not:
/// documents that are opened and edited before the workspace is ready are not lost.
pub proof fn law_documents_follow<S>(
    one: ServerCore<S>,
    one_after: ServerCore<S>,
    one_action: NoteActionV,
    other: ServerCore<S>,
    other_after: ServerCore<S>,
    other_action: NoteActionV,
    method: Seq<char>,
    document: Option<Seq<char>>,
    params: JsonV,
)
    requires
        one.docs@ == other.docs@,
        one.notified(one_after, method, document, params, one_action),
        other.notified(other_after, method, document, params, other_action),
    ensures
        one_after.docs@ == other_after.docs@,
{
    if document is Some && params::content_changes_in(params) is Some {
        let uri = document->0;
        let version = params::document_version_in(params);
        if one.changed_in(one_after, uri, params, one_action) && other.changed_in(
            other_after,
            uri,
            params,
            other_action,
        ) {
            let a = choose|a: Seq<ContentChange>|
                params::content_changes_in(params) == Some(#[trigger] params::change_views(a))
                    && one.changed_by(one_after, uri, version, a, one_action);
            let b = choose|b: Seq<ContentChange>|
                params::content_changes_in(params) == Some(#[trigger] params::change_views(b))
                    && other.changed_by(other_after, uri, version, b, other_action);
            let text = if one.docs@.contains_key(uri) {
                one.docs@[uri].0
            } else {
                Seq::<char>::empty()
            };
            lemma_same_changes(text, a, b);
            lemma_same_ranges(text, a, b);
            lemma_same_ranges(text, b, a);
        }
    }
}

/// The protocol's name of a method whose answer depends on the workspace.
pub open spec fn protocol_name(method: Method) -> Seq<char> {
    match method {
        Method::Completion => "textDocument/completion"@,
        Method::Hover => "textDocument/hover"@,
        Method::SignatureHelp => "textDocument/signatureHelp"@,
        Method::Definition => "textDocument/definition"@,
        Method::TypeDefinition => "textDocument/typeDefinition"@,
        Method::References => "textDocument/references"@,
        Method::DocumentHighlight => "textDocument/documentHighlight"@,
        Method::PrepareRename => "textDocument/prepareRename"@,
        Method::Rename => "textDocument/rename"@,
        Method::WorkspaceSymbol => "workspace/symbol"@,
        Method::InlayHint => "textDocument/inlayHint"@,
        Method::CodeAction => "textDocument/codeAction"@,
        Method::SelectionRange => "textDocument/selectionRange"@,
        Method::FoldingRange => "textDocument/foldingRange"@,
        Method::SemanticTokensFull => "textDocument/semanticTokens/full"@,
        Method::SemanticTokensRange => "textDocument/semanticTokens/range"@,
    }
}

/// A request is taken for the method that the protocol names so, and for no other.
#[verifier::rlimit(60)]
pub proof fn law_methods_named(method: Method, name: Seq<char>)
    ensures
        readiness(protocol_name(method)) == Some(method),
        readiness(name) matches Some(found) ==> name == protocol_name(found),
{
    reveal_strlit("textDocument/completion");
    reveal_strlit("textDocument/hover");
    reveal_strlit("textDocument/signatureHelp");
    reveal_strlit("textDocument/definition");
    reveal_strlit("textDocument/typeDefinition");
    reveal_strlit("textDocument/references");
    reveal_strlit("textDocument/documentHighlight");
    reveal_strlit("textDocument/prepareRename");
    reveal_strlit("textDocument/rename");
    reveal_strlit("workspace/symbol");
    reveal_strlit("textDocument/inlayHint");
    reveal_strlit("textDocument/codeAction");
    reveal_strlit("textDocument/selectionRange");
    reveal_strlit("textDocument/foldingRange");
    reveal_strlit("textDocument/semanticTokens/full");
    reveal_strlit("textDocument/semanticTokens/range");
    assert("textDocument/completion"@.len() == 23 && "textDocument/completion"@[13] == 'c' && "textDocument/completion"@[15] == 'm');
    assert("textDocument/hover"@.len() == 18 && "textDocument/hover"@[13] == 'h' && "textDocument/hover"@[15] == 'v');
    assert("textDocument/signatureHelp"@.len() == 26 && "textDocument/signatureHelp"@[13] == 's' && "textDocument/signatureHelp"@[15] == 'g');
    assert("textDocument/definition"@.len() == 23 && "textDocument/definition"@[13] == 'd' && "textDocument/definition"@[15] == 'f');
    assert("textDocument/typeDefinition"@.len() == 27 && "textDocument/typeDefinition"@[13] == 't' && "textDocument/typeDefinition"@[15] == 'p');
    assert("textDocument/references"@.len() == 23 && "textDocument/references"@[13] == 'r' && "textDocument/references"@[15] == 'f');
    assert("textDocument/documentHighlight"@.len() == 30 && "textDocument/documentHighlight"@[13] == 'd' && "textDocument/documentHighlight"@[15] == 'c');
    assert("textDocument/prepareRename"@.len() == 26 && "textDocument/prepareRename"@[13] == 'p' && "textDocument/prepareRename"@[15] == 'e');
    assert("textDocument/rename"@.len() == 19 && "textDocument/rename"@[13] == 'r' && "textDocument/rename"@[15] == 'n');
    assert("workspace/symbol"@.len() == 16 && "workspace/symbol"@[13] == 'b' && "workspace/symbol"@[15] == 'l');
    assert("textDocument/inlayHint"@.len() == 22 && "textDocument/inlayHint"@[13] == 'i' && "textDocument/inlayHint"@[15] == 'l');
    assert("textDocument/codeAction"@.len() == 23 && "textDocument/codeAction"@[13] == 'c' && "textDocument/codeAction"@[15] == 'd');
    assert("textDocument/selectionRange"@.len() == 27 && "textDocument/selectionRange"@[13] == 's' && "textDocument/selectionRange"@[15] == 'l');
    assert("textDocument/foldingRange"@.len() == 25 && "textDocument/foldingRange"@[13] == 'f' && "textDocument/foldingRange"@[15] == 'l');
    assert("textDocument/semanticTokens/full"@.len() == 32 && "textDocument/semanticTokens/full"@[13] == 's' && "textDocument/semanticTokens/full"@[15] == 'm');
    assert("textDocument/semanticTokens/range"@.len() == 33 && "textDocument/semanticTokens/range"@[13] == 's' && "textDocument/semanticTokens/range"@[15] == 'm');
}

/// While the workspace is not ready, references and a rename fail with its status; completion is
/// an empty list that is complete, other lists are empty, and the rest is null.
pub proof fn law_fallbacks<S>(method: Method, state: WorkspaceState<S>)
    ensures
        method is References || method is Rename ==> (fallback(method, state) matches Err(error)
            && error.code == -32803 && error.message == "workspace is "@ + state.status()
            && error.data is None),
        method is Completion ==> (fallback(method, state) matches Ok(value) && value.get(
            "isIncomplete"@,
        ) == Some(JsonV::Bool(false)) && (value.get("items"@) matches Some(JsonV::Array(items))
            && items.len() == 0)),
        method is DocumentHighlight || method is WorkspaceSymbol || method is Definition
            || method is TypeDefinition || method is InlayHint || method is CodeAction
            || method is FoldingRange ==> (fallback(method, state) matches Ok(
            JsonV::Array(items),
        ) && items.len() == 0),
        method is Hover || method is SignatureHelp || method is PrepareRename
            || method is SelectionRange || method is SemanticTokensFull
            || method is SemanticTokensRange ==> fallback(method, state) == Ok::<
            JsonV,
            ResponseErrorV,
        >(JsonV::Null),
{
    broadcast use json::lemma_member_short;

    reveal_strlit("isIncomplete");
    reveal_strlit("items");
    assert("isIncomplete"@.len() != "items"@.len());
}

/// Once the server is initialized, a method of the protocol goes to the services where the
/// workspace is ready and is answered by its fallback where it is not; a completion item comes
/// back as it is; the report needs no workspace, the other commands do; and what is not known
/// is refused. Before that, everything but `initialize` and `shutdown` is too early.
pub proof fn law_requests_routed<S>(
    core: ServerCore<S>,
    method: Method,
    name: Seq<char>,
    params: JsonV,
    command: Seq<char>,
)
    ensures
        core.route("initialize"@, params) is Initialize,
        core.route("shutdown"@, params) is Shutdown,
        !core.initialized && name != "initialize"@ && name != "shutdown"@ ==> core.route(
            name,
            params,
        ) is TooEarly,
        core.initialized && core.state is Ready ==> core.route(protocol_name(method), params)
            is Delegate,
        core.initialized && !(core.state is Ready) ==> core.route(protocol_name(method), params)
            == Route::Fallback(method),
        core.initialized ==> core.route("completionItem/resolve"@, params) == (if core.state
            is Ready {
            Route::Delegate
        } else {
            Route::Echo
        }),
        core.initialized && params.get("command"@) == Some(
            JsonV::Str("scala3SemanticLs.doctor"@),
        ) ==> core.route("workspace/executeCommand"@, params) is Doctor,
        core.initialized && params.get("command"@) == Some(JsonV::Str(command)) && (command
            == "scala3SemanticLs.reindex"@ || command == "scala3SemanticLs.compile"@ || command
            == "scala3SemanticLs.pcPluginStatus"@) ==> (if core.state is Ready {
            core.route("workspace/executeCommand"@, params) is Delegate
        } else {
            core.route("workspace/executeCommand"@, params) is Unavailable
        }),
        core.initialized && params.get("command"@) == Some(JsonV::Str(command)) && command
            != "scala3SemanticLs.doctor"@ && command != "scala3SemanticLs.reindex"@ && command
            != "scala3SemanticLs.compile"@ && command != "scala3SemanticLs.pcPluginStatus"@
            ==> core.route("workspace/executeCommand"@, params) == Route::UnknownCommand(command),
{
    law_methods_named(method, protocol_name(method));
    law_methods_named(method, "completionItem/resolve"@);
    law_methods_named(method, "workspace/executeCommand"@);
    reveal_strlit("initialize");
    reveal_strlit("shutdown");
    reveal_strlit("completionItem/resolve");
    reveal_strlit("workspace/executeCommand");
    assert("initialize"@.len() == 10 && "shutdown"@.len() == 8);
    assert("completionItem/resolve"@.len() == 22 && "workspace/executeCommand"@.len() == 24);
    assert("completionItem/resolve"@[0] == 'c' && "workspace/executeCommand"@[0] == 'w');
    lemma_protocol_name(method);
    reveal_strlit("scala3SemanticLs.doctor");
    reveal_strlit("scala3SemanticLs.reindex");
    reveal_strlit("scala3SemanticLs.compile");
    reveal_strlit("scala3SemanticLs.pcPluginStatus");
    assert("scala3SemanticLs.doctor"@.len() == 23);
    assert("scala3SemanticLs.reindex"@.len() == 24 && "scala3SemanticLs.reindex"@[17] == 'r');
    assert("scala3SemanticLs.compile"@.len() == 24 && "scala3SemanticLs.compile"@[17] == 'c');
    assert("scala3SemanticLs.pcPluginStatus"@.len() == 31);
}

proof fn lemma_protocol_name(method: Method)
    ensures
        protocol_name(method) != "initialize"@,
        protocol_name(method) != "shutdown"@,
        protocol_name(method) != "completionItem/resolve"@,
        protocol_name(method) != "workspace/executeCommand"@,
{
    reveal_strlit("textDocument/completion");
    reveal_strlit("textDocument/hover");
    reveal_strlit("textDocument/signatureHelp");
    reveal_strlit("textDocument/definition");
    reveal_strlit("textDocument/typeDefinition");
    reveal_strlit("textDocument/references");
    reveal_strlit("textDocument/documentHighlight");
    reveal_strlit("textDocument/prepareRename");
    reveal_strlit("textDocument/rename");
    reveal_strlit("workspace/symbol");
    reveal_strlit("textDocument/inlayHint");
    reveal_strlit("textDocument/codeAction");
    reveal_strlit("textDocument/selectionRange");
    reveal_strlit("textDocument/foldingRange");
    reveal_strlit("textDocument/semanticTokens/full");
    reveal_strlit("textDocument/semanticTokens/range");
    reveal_strlit("initialize");
    reveal_strlit("shutdown");
    reveal_strlit("completionItem/resolve");
    reveal_strlit("workspace/executeCommand");
    let name = protocol_name(method);
    assert(name[0] == 't' || (name[0] == 'w' && name.len() == 16));
    assert(name.len() > 15);
    assert("initialize"@.len() == 10 && "shutdown"@.len() == 8);
    assert("completionItem/resolve"@[0] == 'c' && "workspace/executeCommand"@[0] == 'w');
    assert("workspace/executeCommand"@.len() == 24);
}

/// The `doctor` command is answered with the whole report and the state of the workspace: in
/// front of the text, or as one more member of the JSON, which hides no other.
pub proof fn law_doctor_answer(report: DoctorReport, status: Seq<char>, name: Seq<char>)
    ensures
        doctor_answer(report, status, false) matches JsonV::Str(s) && s == "state: "@ + status
            + "\n\n"@ + doctor::report_text(report),
        doctor_answer(report, status, true).get("state"@) == Some(JsonV::Str(status)),
        name != "state"@ ==> doctor_answer(report, status, true).get(name) == doctor::report_json(
            report,
        ).get(name),
{
    broadcast use {json::lemma_member_push, json::lemma_member_short};

    reveal_strlit("runtime");
    reveal_strlit("nix");
    reveal_strlit("bsp");
    reveal_strlit("semanticdb");
    reveal_strlit("store");
    reveal_strlit("pc");
    reveal_strlit("pcPlugins");
    reveal_strlit("state");
    assert("state"@.len() == 5 && "runtime"@.len() == 7 && "nix"@.len() == 3);
    assert("bsp"@.len() == 3 && "semanticdb"@.len() == 10 && "pc"@.len() == 2);
    assert("pcPlugins"@.len() == 9);
    assert("store"@[2] == 'o' && "state"@[2] == 'a');
}

/// A document that is opened is held with its whole text and its version, one that is closed is
/// held no more, one that is saved takes the text that comes along, and no other document
/// changes; a ready workspace is told.
pub proof fn law_documents_held<S>(
    before: ServerCore<S>,
    after: ServerCore<S>,
    action: NoteActionV,
    method: Seq<char>,
    uri: Seq<char>,
    params: JsonV,
    document: JsonV,
    new: Seq<char>,
    version: i64,
    other: Seq<char>,
)
    requires
        before.notified(after, method, Some(uri), params, action),
        other != uri,
    ensures
        method == "textDocument/didOpen"@ && params.get("textDocument"@) == Some(document)
            && document.get("text"@) == Some(JsonV::Str(new)) && document.get("version"@) == Some(
            json::int_view(version as int),
        ) ==> after.docs@.contains_key(uri) && after.docs@[uri] == (new, version) && (before.state
            is Ready ==> action == NoteActionV::Opened(uri, new)),
        method == "textDocument/didClose"@ ==> !after.docs@.contains_key(uri) && (before.state
            is Ready ==> action == NoteActionV::Closed(uri)),
        method == "textDocument/didSave"@ && params.get("text"@) == Some(JsonV::Str(new))
            && before.docs@.contains_key(uri) ==> after.docs@.contains_key(uri)
            && after.docs@[uri] == (new, before.docs@[uri].1),
        method == "textDocument/didSave"@ && params.get("text"@) is None ==> after.docs@
            == before.docs@,
        after.docs@.contains_key(other) == before.docs@.contains_key(other),
        before.docs@.contains_key(other) ==> after.docs@[other] == before.docs@[other],
        !(before.state is Ready) ==> action is Nothing || action is Stop || action is Bootstrap
            || action is Dropped,
{
    lemma_notes_named();
    numerals::law_numeral_round_trip(version);
}

proof fn lemma_notes_named()
    ensures
        "initialized"@ != "textDocument/didOpen"@,
        "exit"@ != "textDocument/didOpen"@,
        "initialized"@ != "textDocument/didChange"@,
        "exit"@ != "textDocument/didChange"@,
        "initialized"@ != "textDocument/didClose"@,
        "exit"@ != "textDocument/didClose"@,
        "initialized"@ != "textDocument/didSave"@,
        "exit"@ != "textDocument/didSave"@,
        "textDocument/didOpen"@ != "textDocument/didChange"@,
        "textDocument/didOpen"@ != "textDocument/didClose"@,
        "textDocument/didOpen"@ != "textDocument/didSave"@,
        "textDocument/didChange"@ != "textDocument/didClose"@,
        "textDocument/didChange"@ != "textDocument/didSave"@,
        "textDocument/didClose"@ != "textDocument/didSave"@,
{
    reveal_strlit("initialized");
    reveal_strlit("exit");
    reveal_strlit("textDocument/didOpen");
    reveal_strlit("textDocument/didChange");
    reveal_strlit("textDocument/didClose");
    reveal_strlit("textDocument/didSave");
    assert("initialized"@.len() == 11 && "exit"@.len() == 4);
    assert("textDocument/didOpen"@.len() == 20 && "textDocument/didSave"@.len() == 20);
    assert("textDocument/didOpen"@[16] == 'O' && "textDocument/didSave"@[16] == 'S');
    assert("textDocument/didChange"@.len() == 22 && "textDocument/didClose"@.len() == 21);
}

/// The change events of a notification are folded into an open document one after the other, in
/// the order in which they were sent, and its version becomes the one that was sent.
pub proof fn law_changes_folded<S>(
    before: ServerCore<S>,
    after: ServerCore<S>,
    action: NoteActionV,
    uri: Seq<char>,
    params: JsonV,
    changes: Seq<ContentChange>,
)
    requires
        before.notified(after, "textDocument/didChange"@, Some(uri), params, action),
        before.docs@.contains_key(uri),
        params::content_changes_in(params) == Some(params::change_views(changes)),
        changes.len() > 0,
        documents::foldable(before.docs@[uri].0, changes),
    ensures
        after.docs@.contains_key(uri),
        after.docs@[uri].0 == documents::changed_all(before.docs@[uri].0, changes),
        params::document_version_in(params) is None ==> after.docs@[uri].1 == before.docs@[uri].1,
        params::document_version_in(params) matches Some(version) ==> after.docs@[uri].1
            == version as i64,
        before.state is Ready ==> action == NoteActionV::Changed(uri, after.docs@[uri].0),
{
    lemma_notes_named();
    let text = before.docs@[uri].0;
    let version = params::document_version_in(params);
    let sent = choose|sent: Seq<ContentChange>|
        params::content_changes_in(params) == Some(#[trigger] params::change_views(sent))
            && before.changed_by(after, uri, version, sent, action);
    assert(params::change_views(sent).len() == sent.len());
    assert(params::change_views(changes).len() == changes.len());
    lemma_same_changes(text, sent, changes);
    lemma_same_ranges(text, changes, sent);
}

/// No request changes the server but `initialize` and `shutdown`. Before `initialize` a request is
/// refused with its method; later, one with a method that the server does not know is refused
/// with that method, and one for a command that there is not with that command.
pub proof fn law_refusals_told<
    S,
    H: Handlers<S>,
    P: Fn(&str) -> Option<String>,
    N: Fn(&str) -> String,
    O: Fn(&str) -> DoctorReport,
>(
    before: ServerCore<S>,
    after: ServerCore<S>,
    handlers: &H,
    host: Host<P, N, O>,
    request: &Request,
    response: Response,
    command: Seq<char>,
)
    requires
        request_answered(before, after, handlers, host, request, response),
        request.method@ != "initialize"@,
        request.method@ != "shutdown"@,
    ensures
        after == before,
        !before.initialized ==> (response.error matches Some(error) && error.code == -32002
            && error.message@ == "received "@ + request.method@ + " before initialize"@
            && response.result is None && response.id@ == request.id@),
        before.initialized && request.method@ != "completionItem/resolve"@ && request.method@
            != "workspace/executeCommand"@ && (forall|method: Method|
            request.method@ != #[trigger] protocol_name(method)) ==> (response.error matches Some(
            error,
        ) && error.code == -32601 && error.message@ == "unhandled request: "@ + request.method@
            && response.result is None && response.id@ == request.id@),
        before.initialized && request.method@ == "workspace/executeCommand"@
            && request.params@.get("command"@) == Some(JsonV::Str(command)) && command
            != "scala3SemanticLs.doctor"@ && command != "scala3SemanticLs.reindex"@ && command
            != "scala3SemanticLs.compile"@ && command != "scala3SemanticLs.pcPluginStatus"@ ==> (
        response.error matches Some(error) && error.code == -32602 && error.message@
            == "unknown command '"@ + command + "'"@ && response.result is None && response.id@
            == request.id@),
{
    law_requests_routed(before, Method::Hover, request.method@, request.params@, command);
    match readiness(request.method@) {
        Some(method) => {
            law_methods_named(method, request.method@);
        },
        None => {},
    }
}

/// While the workspace is not ready, a command that needs it says so with its state, and a
/// completion item that is to be resolved comes back as it was sent.
pub proof fn law_unready_answers<
    S,
    H: Handlers<S>,
    P: Fn(&str) -> Option<String>,
    N: Fn(&str) -> String,
    O: Fn(&str) -> DoctorReport,
>(
    before: ServerCore<S>,
    after: ServerCore<S>,
    handlers: &H,
    host: Host<P, N, O>,
    request: &Request,
    response: Response,
)
    requires
        request_answered(before, after, handlers, host, request, response),
        before.initialized,
        !(before.state is Ready),
    ensures
        request.method@ == "completionItem/resolve"@ ==> (response.result matches Some(value)
            && value@ == request.params@ && response.error is None),
        request.method@ == "workspace/executeCommand"@ && (request.params@.get("command"@) == Some(
            JsonV::Str("scala3SemanticLs.reindex"@),
        ) || request.params@.get("command"@) == Some(JsonV::Str("scala3SemanticLs.compile"@))
            || request.params@.get("command"@) == Some(
            JsonV::Str("scala3SemanticLs.pcPluginStatus"@),
        )) ==> response.error is None && (response.result matches Some(value) && (
        value@ matches JsonV::Str(told) && text::occurs(
            " unavailable: workspace is "@ + before.state.status(),
            told,
        ))),
{
    law_requests_routed(
        before,
        Method::Hover,
        request.method@,
        request.params@,
        "scala3SemanticLs.reindex"@,
    );
    law_requests_routed(
        before,
        Method::Hover,
        request.method@,
        request.params@,
        "scala3SemanticLs.compile"@,
    );
    law_requests_routed(
        before,
        Method::Hover,
        request.method@,
        request.params@,
        "scala3SemanticLs.pcPluginStatus"@,
    );
    if let Route::Unavailable(action) = before.route(request.method@, request.params@) {
        let told = " unavailable: workspace is "@ + before.state.status();
        text::lemma_occurs_within(action, told, seq![]);
        assert(action + told + seq![] =~= action + " unavailable: workspace is "@
            + before.state.status());
    }
}

/// `initialize` and `shutdown` keep the open documents. Behind the first the server is
/// initialized and what is ready stays ready; behind the second it is shutting down, and the
/// answer is null.
pub proof fn law_documents_outlive<
    S,
    H: Handlers<S>,
    P: Fn(&str) -> Option<String>,
    N: Fn(&str) -> String,
    O: Fn(&str) -> DoctorReport,
>(
    before: ServerCore<S>,
    after: ServerCore<S>,
    handlers: &H,
    host: Host<P, N, O>,
    request: &Request,
    response: Response,
)
    requires
        request_answered(before, after, handlers, host, request, response),
        request.method@ == "initialize"@ || request.method@ == "shutdown"@,
    ensures
        after.docs == before.docs,
        after.bootstrapping == before.bootstrapping,
        request.method@ == "initialize"@ ==> after.initialized && (after.state is Ready
            <==> before.state is Ready) && after.shutting_down == before.shutting_down && host.roots(
            request.params@,
            string_view(after.workspace_root),
        ),
        request.method@ == "shutdown"@ ==> after.shutting_down && (response.result matches Some(
            value,
        ) && value@ is Null) && response.error is None && after.workspace_root
            == before.workspace_root,
        response.id@ == request.id@,
{
    reveal_strlit("initialize");
    reveal_strlit("shutdown");
    assert("initialize"@.len() != "shutdown"@.len());
}

/// A worker that brings services makes the workspace ready with them, and they are handed the
/// open documents; one that ends without a result leaves a workspace that failed. Behind a
/// shutdown nothing of it is taken.
pub proof fn law_worker_result_taken<S, B: Bootstrap<S>>(
    bootstrap: &B,
    before: ServerCore<S>,
    poll: WorkerPoll<S>,
    after: ServerCore<S>,
)
    requires
        before.bootstrapping,
        before.polled(bootstrap, poll, after),
    ensures
        after.docs == before.docs,
        after.bootstrapping <==> poll is Pending,
        poll is Pending || before.shutting_down ==> after.state == before.state,
        !before.shutting_down ==> (poll matches WorkerPoll::Finished(state) ==> after.state
            == state),
        !before.shutting_down && poll is Gone ==> after.state is Failed,
        !before.shutting_down ==> (poll matches WorkerPoll::Finished(WorkspaceState::Ready(services))
            ==> call_ensures(B::replay, (bootstrap, &services, &before.docs), ())),
{
}

/// What is no request and no notification leaves the server as it is: a response is named in the
/// log by its id, and a body that is no message is answered with an error.
pub proof fn law_others_change_nothing<
    S,
    H: Handlers<S>,
    P: Fn(&str) -> Option<String>,
    N: Fn(&str) -> String,
    O: Fn(&str) -> DoctorReport,
>(
    before: ServerCore<S>,
    after: ServerCore<S>,
    handlers: &H,
    host: Host<P, N, O>,
    body: Seq<u8>,
    turn: Turn,
)
    requires
        taken(before, after, handlers, host, body, turn),
    ensures
        jsonrpc::incoming_of(body) matches Ok(IncomingV::Response { reply_to, .. }) ==> after
            == before && sent(turn) is None && (turn.action@ matches NoteActionV::Dropped(told) && (
        reply_to matches Some(RequestIdV::Number(n)) ==> text::occurs(
            numerals::decimal_int(n as int),
            told,
        )) && (reply_to matches Some(RequestIdV::Text(s)) ==> text::occurs(text::quoted(s), told))),
        jsonrpc::incoming_of(body) matches Err(error) ==> after == before && turn.action@ is Nothing
            && sent(turn) == Some(
            jsonrpc::framed(json::printed(jsonrpc::null_id_error_json(error))),
        ),
{
    if let Ok(IncomingV::Response { reply_to, .. }) = jsonrpc::incoming_of(body) {
        let front = "ls-server: ignoring a client response with no matching request (id: "@;
        match reply_to {
            Some(RequestIdV::Number(n)) => {
                let id = numerals::decimal_int(n as int);
                text::lemma_occurs_within("Some(Number("@, id, "))"@);
                text::lemma_occurs(id, front, shown_reply(reply_to), ")"@);
            },
            Some(RequestIdV::Text(s)) => {
                let id = text::quoted(s);
                text::lemma_occurs_within("Some(String("@, id, "))"@);
                text::lemma_occurs(id, front, shown_reply(reply_to), ")"@);
            },
            None => {},
        }
    }
}

} // verus!
