//! The management interface: what is asked, who may ask it, and what is refused.
use crate::config::load::Listener;
use crate::diagnostics::auth::{Holder, Principal};
use crate::diagnostics::simulation::{listener_of, pick_listener};
use crate::logging::access::{form_pairs, parse_form};
use crate::net::{parse_socket, parsed_socket, Socket};
use crate::proxy::paths::{normal_path, normalized_path, PathError};
use crate::text;
use vstd::prelude::*;

verus! {

/// The longest body of a request, in bytes.
pub const MAX_BODY: usize = 1048576;

/// The longest answer, in bytes.
pub const MAX_ANSWER: usize = 8388608;

/// Why a request to the management interface is refused.
#[derive(Clone, Copy, Debug, PartialEq, Eq, Structural)]
pub enum Refusal {
    Unauthenticated,
    RollbackNeedsGlobalWriter,
    AuditUnavailable,
    RolloutNeedsWriter,
    OwnerNeedsNamespace,
    RolloutOutsideScope,
    SimulationBudget,
    SimulationNeedsPost,
    SimulationBody,
    RouteOutsideScope,
    RollbackNeedsPost,
    NeedsGet,
    FleetNeedsGlobal,
    HistoryNeedsGlobal,
    MissingListener,
    NotFound,
    PreflightBudget,
    NamespaceOutsideScope,
    FileNeedsGlobalWriter,
    VersionChanged,
    VersionChangedMeanwhile,
    PreflightFailed,
    NeedsPost,
    BodyUnavailable,
    BodyDeadline,
    InvalidJson,
    AnswerTooLong,
}

impl Refusal {
    pub open spec fn spec_status(self) -> u16 {
        match self {
            Refusal::Unauthenticated => 401,
            Refusal::RollbackNeedsGlobalWriter => 403,
            Refusal::AuditUnavailable => 503,
            Refusal::RolloutNeedsWriter => 403,
            Refusal::OwnerNeedsNamespace => 400,
            Refusal::RolloutOutsideScope => 403,
            Refusal::SimulationBudget => 429,
            Refusal::SimulationNeedsPost => 405,
            Refusal::SimulationBody => 413,
            Refusal::RouteOutsideScope => 403,
            Refusal::RollbackNeedsPost => 405,
            Refusal::NeedsGet => 405,
            Refusal::FleetNeedsGlobal => 403,
            Refusal::HistoryNeedsGlobal => 403,
            Refusal::MissingListener => 400,
            Refusal::NotFound => 404,
            Refusal::PreflightBudget => 429,
            Refusal::NamespaceOutsideScope => 403,
            Refusal::FileNeedsGlobalWriter => 403,
            Refusal::VersionChanged => 409,
            Refusal::VersionChangedMeanwhile => 409,
            Refusal::PreflightFailed => 500,
            Refusal::NeedsPost => 405,
            Refusal::BodyUnavailable => 413,
            Refusal::BodyDeadline => 408,
            Refusal::InvalidJson => 400,
            Refusal::AnswerTooLong => 413,
        }
    }

    /// The status of the answer.
    pub fn status(&self) -> (r: u16)
        ensures
            r == self.spec_status(),
    {
        match self {
            Refusal::Unauthenticated => 401,
            Refusal::RollbackNeedsGlobalWriter => 403,
            Refusal::AuditUnavailable => 503,
            Refusal::RolloutNeedsWriter => 403,
            Refusal::OwnerNeedsNamespace => 400,
            Refusal::RolloutOutsideScope => 403,
            Refusal::SimulationBudget => 429,
            Refusal::SimulationNeedsPost => 405,
            Refusal::SimulationBody => 413,
            Refusal::RouteOutsideScope => 403,
            Refusal::RollbackNeedsPost => 405,
            Refusal::NeedsGet => 405,
            Refusal::FleetNeedsGlobal => 403,
            Refusal::HistoryNeedsGlobal => 403,
            Refusal::MissingListener => 400,
            Refusal::NotFound => 404,
            Refusal::PreflightBudget => 429,
            Refusal::NamespaceOutsideScope => 403,
            Refusal::FileNeedsGlobalWriter => 403,
            Refusal::VersionChanged => 409,
            Refusal::VersionChangedMeanwhile => 409,
            Refusal::PreflightFailed => 500,
            Refusal::NeedsPost => 405,
            Refusal::BodyUnavailable => 413,
            Refusal::BodyDeadline => 408,
            Refusal::InvalidJson => 400,
            Refusal::AnswerTooLong => 413,
        }
    }

    pub open spec fn spec_message(self) -> Seq<char> {
        match self {
            Refusal::Unauthenticated => "diagnostics require a configured bearer token"@,
            Refusal::RollbackNeedsGlobalWriter => "rollback requires a global writer"@,
            Refusal::AuditUnavailable => "audit output unavailable"@,
            Refusal::RolloutNeedsWriter => "rollout operations require a writer"@,
            Refusal::OwnerNeedsNamespace => "owner requires namespace/name"@,
            Refusal::RolloutOutsideScope => "rollout outside identity scope"@,
            Refusal::SimulationBudget => "simulation budget exhausted"@,
            Refusal::SimulationNeedsPost => "simulation requires POST"@,
            Refusal::SimulationBody => "simulation body unavailable or exceeds 1 MiB"@,
            Refusal::RouteOutsideScope => "route is outside identity scope"@,
            Refusal::RollbackNeedsPost => "rollback requires POST"@,
            Refusal::NeedsGet => "diagnostics require GET"@,
            Refusal::FleetNeedsGlobal => "replica status requires global scope"@,
            Refusal::HistoryNeedsGlobal => "history requires global scope"@,
            Refusal::MissingListener => "missing listener"@,
            Refusal::NotFound => "not found"@,
            Refusal::PreflightBudget => "preflight budget exhausted"@,
            Refusal::NamespaceOutsideScope => "namespace outside identity scope"@,
            Refusal::FileNeedsGlobalWriter => "file preflight requires a global writer in standalone mode"@,
            Refusal::VersionChanged => "configuration version changed"@,
            Refusal::VersionChangedMeanwhile => "configuration changed during preflight; retry"@,
            Refusal::PreflightFailed => "preflight task failed"@,
            Refusal::NeedsPost => "POST required"@,
            Refusal::BodyUnavailable => "request body unavailable or exceeds 1 MiB"@,
            Refusal::BodyDeadline => "request body deadline exceeded"@,
            Refusal::InvalidJson => "invalid request JSON"@,
            Refusal::AnswerTooLong => "diagnostic response exceeds 8 MiB"@,
        }
    }

    /// What the answer says.
    pub fn message(&self) -> (r: &'static str)
        ensures
            r@ == self.spec_message(),
    {
        match self {
            Refusal::Unauthenticated => "diagnostics require a configured bearer token",
            Refusal::RollbackNeedsGlobalWriter => "rollback requires a global writer",
            Refusal::AuditUnavailable => "audit output unavailable",
            Refusal::RolloutNeedsWriter => "rollout operations require a writer",
            Refusal::OwnerNeedsNamespace => "owner requires namespace/name",
            Refusal::RolloutOutsideScope => "rollout outside identity scope",
            Refusal::SimulationBudget => "simulation budget exhausted",
            Refusal::SimulationNeedsPost => "simulation requires POST",
            Refusal::SimulationBody => "simulation body unavailable or exceeds 1 MiB",
            Refusal::RouteOutsideScope => "route is outside identity scope",
            Refusal::RollbackNeedsPost => "rollback requires POST",
            Refusal::NeedsGet => "diagnostics require GET",
            Refusal::FleetNeedsGlobal => "replica status requires global scope",
            Refusal::HistoryNeedsGlobal => "history requires global scope",
            Refusal::MissingListener => "missing listener",
            Refusal::NotFound => "not found",
            Refusal::PreflightBudget => "preflight budget exhausted",
            Refusal::NamespaceOutsideScope => "namespace outside identity scope",
            Refusal::FileNeedsGlobalWriter => "file preflight requires a global writer in standalone mode",
            Refusal::VersionChanged => "configuration version changed",
            Refusal::VersionChangedMeanwhile => "configuration changed during preflight; retry",
            Refusal::PreflightFailed => "preflight task failed",
            Refusal::NeedsPost => "POST required",
            Refusal::BodyUnavailable => "request body unavailable or exceeds 1 MiB",
            Refusal::BodyDeadline => "request body deadline exceeded",
            Refusal::InvalidJson => "invalid request JSON",
            Refusal::AnswerTooLong => "diagnostic response exceeds 8 MiB",
        }
    }
}

// ---------------------------------------------------------------------------
// Before a request is handled
// ---------------------------------------------------------------------------

pub open spec fn is_rollback(path: Seq<char>) -> bool {
    text::starts(path, "/v1/rollback/"@)
}

/// The paths of the interface that are on record by themselves.
pub open spec fn recorded_path(path: Seq<char>) -> bool {
    ||| path == "/v1/config"@
    ||| path == "/v1/fleet"@
    ||| path == "/v1/routes"@
    ||| path == "/v1/backends"@
    ||| path == "/v1/history"@
    ||| path == "/v1/explain"@
    ||| path == "/v1/simulate"@
    ||| path == "/v1/rollouts"@
    ||| path == "/v1/validate"@
    ||| path == "/v1/validate-ingress"@
    ||| path == "/v1/validate-gateway"@
}

/// The version that a rollback asks for.
pub open spec fn rollback_version(path: Seq<char>) -> Option<nat> {
    text::decimal_upto(path.skip("/v1/rollback/"@.len() as int), u64::MAX as nat)
}

/// How a request is put on record.
pub open spec fn operation_of(path: Seq<char>) -> Seq<char> {
    if is_rollback(path) {
        "rollback/"@ + match rollback_version(path) {
            Some(n) => text::decimal(n),
            None => "invalid"@,
        }
    } else if recorded_path(path) {
        path
    } else {
        "unknown"@
    }
}

fn is_recorded(path: &str) -> (r: bool)
    ensures
        r == recorded_path(path@),
{
    text::same(path, "/v1/config") || text::same(path, "/v1/fleet") || text::same(
        path,
        "/v1/routes",
    ) || text::same(path, "/v1/backends") || text::same(path, "/v1/history") || text::same(
        path,
        "/v1/explain",
    ) || text::same(path, "/v1/simulate") || text::same(path, "/v1/rollouts") || text::same(
        path,
        "/v1/validate",
    ) || text::same(path, "/v1/validate-ingress") || text::same(path, "/v1/validate-gateway")
}

/// How a request is put on record.
pub fn operation(path: &str) -> (out: String)
    ensures
        out@ == operation_of(path@),
{
    match text::strip_prefix(path, "/v1/rollback/") {
        Some(version) => match text::parse_u64(version) {
            Some(n) => text::concat("rollback/", text::decimal_string(n).as_str()),
            None => text::concat("rollback/", "invalid"),
        },
        None => if is_recorded(path) {
            path.to_owned()
        } else {
            "unknown".to_owned()
        },
    }
}

/// What comes before a request is handled.
#[derive(Debug)]
pub enum Opening {
    /// The path belongs to the metrics, which everybody may read.
    Telemetry,
    Refused(Refusal),
    /// The attempt is put on record first, as this operation.
    Attempt(String),
}

/// What an `Opening` holds.
#[verifier::ext_equal]
pub ghost enum Door {
    Telemetry,
    Refused(Refusal),
    Attempt(Seq<char>),
}

impl View for Opening {
    type V = Door;

    open spec fn view(&self) -> Door {
        match self {
            Opening::Telemetry => Door::Telemetry,
            Opening::Refused(r) => Door::Refused(*r),
            Opening::Attempt(s) => Door::Attempt(s@),
        }
    }
}

pub open spec fn opened(path: Seq<char>, p: Option<Holder>) -> Door {
    if !text::starts(path, "/v1/"@) {
        Door::Telemetry
    } else {
        match p {
            None => Door::Refused(Refusal::Unauthenticated),
            Some(h) => if is_rollback(path) && !(h.writer() && h.global()) {
                Door::Refused(Refusal::RollbackNeedsGlobalWriter)
            } else {
                Door::Attempt(operation_of(path))
            },
        }
    }
}

pub open spec fn holder(p: Option<Principal>) -> Option<Holder> {
    match p {
        Some(p) => Some(p@),
        None => None,
    }
}

/// What comes before a request is handled.
pub fn open(path: &str, principal: &Option<Principal>) -> (r: Opening)
    ensures
        r@ == opened(path@, holder(*principal)),
{
    if !text::starts_with(path, "/v1/") {
        return Opening::Telemetry;
    }
    match principal {
        None => Opening::Refused(Refusal::Unauthenticated),
        Some(p) => if text::starts_with(path, "/v1/rollback/") && !(p.writer() && p.global()) {
            Opening::Refused(Refusal::RollbackNeedsGlobalWriter)
        } else {
            Opening::Attempt(operation(path))
        },
    }
}

/// Who is put on record.
pub fn actor(principal: &Option<Principal>) -> (r: &str)
    ensures
        r@ == match *principal {
            Some(p) => p.name@,
            None => "unauthenticated"@,
        },
{
    match principal {
        Some(p) => p.name.as_str(),
        None => "unauthenticated",
    }
}

/// Whether an answer is sent, by its length.
pub fn bound_answer(len: usize) -> (r: Result<(), Refusal>)
    ensures
        (r is Ok) == (len <= MAX_ANSWER),
        r is Err ==> r->Err_0 == Refusal::AnswerTooLong,
{
    if len > MAX_ANSWER {
        Err(Refusal::AnswerTooLong)
    } else {
        Ok(())
    }
}

/// An answer as it is sent.
#[derive(Debug)]
pub struct Response {
    pub status: u16,
    pub fields: Vec<(String, String)>,
    pub body: Vec<u8>,
}

/// The fields of an answer: what it is, and that it is not to be kept.
pub open spec fn answer_fields(content_type: Seq<char>) -> Seq<(Seq<char>, Seq<char>)> {
    seq![("Content-Type"@, content_type), ("Cache-Control"@, "no-store"@)]
}

/// An answer as it is sent; no answer of the interface is to be kept.
pub fn respond(status: u16, content_type: &str, body: Vec<u8>) -> (r: Response)
    ensures
        r.status == status,
        text::pairs(r.fields@) == answer_fields(content_type@),
        r.body@ == body@,
{
    let mut fields: Vec<(String, String)> = Vec::new();
    fields.push(("Content-Type".to_owned(), content_type.to_owned()));
    fields.push(("Cache-Control".to_owned(), "no-store".to_owned()));
    assert(text::pairs(fields@) =~= answer_fields(content_type@));
    Response { status, fields, body }
}

/// The text of an answer that says what is wrong, where the message needs no escapes.
pub open spec fn error_text(message: Seq<char>) -> Seq<char> {
    "{\"error\":\""@ + message + "\"}"@
}

/// The answer to a request that is refused.
pub fn refuse(r: Refusal) -> (a: Response)
    ensures
        a.status == r.spec_status(),
        text::pairs(a.fields@) == answer_fields("application/json"@),
        a.body@ == vstd::utf8::encode_utf8(error_text(r.spec_message())),
{
    let body = text::concat3("{\"error\":\"", r.message(), "\"}");
    respond(r.status(), "application/json", text::bytes(body.as_str()))
}

/// The answer to a request of the interface, as JSON that was written; one that is too long is refused.
pub fn conclude(status: u16, written: Vec<u8>) -> (a: Response)
    ensures
        text::pairs(a.fields@) == answer_fields("application/json"@),
        written@.len() <= MAX_ANSWER ==> a.status == status && a.body@ == written@,
        written@.len() > MAX_ANSWER ==> a.status == Refusal::AnswerTooLong.spec_status() && a.body@
            == vstd::utf8::encode_utf8(error_text(Refusal::AnswerTooLong.spec_message())),
{
    match bound_answer(written.len()) {
        Ok(_) => respond(status, "application/json", written),
        Err(e) => refuse(e),
    }
}

// ---------------------------------------------------------------------------
// What is asked
// ---------------------------------------------------------------------------

/// What a request asks for.
#[derive(Clone, Copy, Debug, PartialEq, Eq, Structural)]
pub enum Task {
    ValidateFile,
    ValidateIngress,
    ValidateGateway,
    Rollouts,
    Simulate,
    /// A rollback, to this version where the path holds a number.
    Rollback(Option<u64>),
    Fleet,
    Config,
    Routes,
    Backends,
    History,
    Explain,
    Refused(Refusal),
}

/// What the reading part of the interface shows.
pub open spec fn shown(path: Seq<char>, h: Holder) -> Task {
    if path == "/v1/fleet"@ {
        if h.global() {
            Task::Fleet
        } else {
            Task::Refused(Refusal::FleetNeedsGlobal)
        }
    } else if path == "/v1/config"@ {
        Task::Config
    } else if path == "/v1/routes"@ {
        Task::Routes
    } else if path == "/v1/backends"@ {
        Task::Backends
    } else if path == "/v1/history"@ {
        if h.global() {
            Task::History
        } else {
            Task::Refused(Refusal::HistoryNeedsGlobal)
        }
    } else if path == "/v1/explain"@ {
        Task::Explain
    } else {
        Task::Refused(Refusal::NotFound)
    }
}

/// What a request asks for, and whether it may.
pub open spec fn tasked(path: Seq<char>, method: Seq<char>, h: Holder) -> Task {
    if path == "/v1/validate"@ {
        Task::ValidateFile
    } else if path == "/v1/validate-ingress"@ {
        Task::ValidateIngress
    } else if path == "/v1/validate-gateway"@ {
        Task::ValidateGateway
    } else if path == "/v1/rollouts"@ {
        if h.writer() {
            Task::Rollouts
        } else {
            Task::Refused(Refusal::RolloutNeedsWriter)
        }
    } else if path == "/v1/simulate"@ {
        Task::Simulate
    } else if is_rollback(path) {
        if method != "POST"@ {
            Task::Refused(Refusal::RollbackNeedsPost)
        } else {
            Task::Rollback(
                match rollback_version(path) {
                    Some(n) => Some(n as u64),
                    None => None,
                },
            )
        }
    } else if method != "GET"@ {
        Task::Refused(Refusal::NeedsGet)
    } else {
        shown(path, h)
    }
}

fn show(path: &str, principal: &Principal) -> (t: Task)
    ensures
        t == shown(path@, principal@),
{
    if text::same(path, "/v1/fleet") {
        if principal.global() {
            Task::Fleet
        } else {
            Task::Refused(Refusal::FleetNeedsGlobal)
        }
    } else if text::same(path, "/v1/config") {
        Task::Config
    } else if text::same(path, "/v1/routes") {
        Task::Routes
    } else if text::same(path, "/v1/backends") {
        Task::Backends
    } else if text::same(path, "/v1/history") {
        if principal.global() {
            Task::History
        } else {
            Task::Refused(Refusal::HistoryNeedsGlobal)
        }
    } else if text::same(path, "/v1/explain") {
        Task::Explain
    } else {
        Task::Refused(Refusal::NotFound)
    }
}

/// What a request asks for, and whether it may.
pub fn handle(path: &str, method: &str, principal: &Principal) -> (t: Task)
    ensures
        t == tasked(path@, method@, principal@),
{
    if text::same(path, "/v1/validate") {
        return Task::ValidateFile;
    }
    if text::same(path, "/v1/validate-ingress") {
        return Task::ValidateIngress;
    }
    if text::same(path, "/v1/validate-gateway") {
        return Task::ValidateGateway;
    }
    if text::same(path, "/v1/rollouts") {
        return if principal.writer() {
            Task::Rollouts
        } else {
            Task::Refused(Refusal::RolloutNeedsWriter)
        };
    }
    if text::same(path, "/v1/simulate") {
        return Task::Simulate;
    }
    if let Some(version) = text::strip_prefix(path, "/v1/rollback/") {
        return if !text::same(method, "POST") {
            Task::Refused(Refusal::RollbackNeedsPost)
        } else {
            Task::Rollback(text::parse_u64(version))
        };
    }
    if !text::same(method, "GET") {
        return Task::Refused(Refusal::NeedsGet);
    }
    show(path, principal)
}

// ---------------------------------------------------------------------------
// Bodies
// ---------------------------------------------------------------------------

/// The length of a body with one more piece; nothing where that is too long.
pub fn take_piece(len: usize, piece: usize) -> (r: Option<usize>)
    ensures
        match r {
            Some(n) => n == len + piece && n <= MAX_BODY,
            None => len + piece > MAX_BODY,
        },
{
    if len > MAX_BODY || piece > MAX_BODY - len {
        None
    } else {
        Some(len + piece)
    }
}

/// Whether a simulation may read its body: it needs a permit, and then the method is looked at.
pub fn simulation_gate(permit: bool, method: &str) -> (r: Result<(), Refusal>)
    ensures
        r == if !permit {
            Err::<(), Refusal>(Refusal::SimulationBudget)
        } else if method@ != "POST"@ {
            Err(Refusal::SimulationNeedsPost)
        } else {
            Ok(())
        },
{
    if !permit {
        return Err(Refusal::SimulationBudget);
    }
    if !text::same(method, "POST") {
        return Err(Refusal::SimulationNeedsPost);
    }
    Ok(())
}

/// What was read of a body that holds JSON.
#[derive(Clone, Copy, Debug, PartialEq, Eq, Structural)]
pub enum Reading {
    /// The body ended.
    Whole,
    /// The body is too long, or could not be read.
    Failed,
    /// The body did not end in time.
    Late,
}

/// Whether a body is read as JSON, by the method and by what was read; a method that has no body reads
/// nothing.
pub fn read_json(method: &str, reading: Reading) -> (r: Result<(), Refusal>)
    ensures
        r == if method@ != "POST"@ {
            Err::<(), Refusal>(Refusal::NeedsPost)
        } else if reading == Reading::Failed {
            Err(Refusal::BodyUnavailable)
        } else if reading == Reading::Late {
            Err(Refusal::BodyDeadline)
        } else {
            Ok(())
        },
{
    if !text::same(method, "POST") {
        return Err(Refusal::NeedsPost);
    }
    match reading {
        Reading::Failed => Err(Refusal::BodyUnavailable),
        Reading::Late => Err(Refusal::BodyDeadline),
        Reading::Whole => Ok(()),
    }
}

// ---------------------------------------------------------------------------
// Scopes
// ---------------------------------------------------------------------------

/// Whether somebody may play a request through that takes a route.
pub fn route_in_scope(principal: &Principal, route: &Option<String>) -> (r: Result<(), Refusal>)
    ensures
        r == if principal@.global() || (route is Some && principal@.route(route->0@)) {
            Ok::<(), Refusal>(())
        } else {
            Err(Refusal::RouteOutsideScope)
        },
{
    if principal.global() {
        return Ok(());
    }
    match route {
        Some(id) => if principal.route(id.as_str()) {
            Ok(())
        } else {
            Err(Refusal::RouteOutsideScope)
        },
        None => Err(Refusal::RouteOutsideScope),
    }
}

/// Whether somebody may command a rollout of an owner, which is a namespace, `/` and a name.
pub open spec fn rollout_allowed(h: Holder, owner: Seq<char>) -> Result<(), Refusal> {
    match text::split_once_spec(owner, '/') {
        None => Err(Refusal::OwnerNeedsNamespace),
        Some((namespace, _)) => if h.allows(namespace) {
            Ok(())
        } else {
            Err(Refusal::RolloutOutsideScope)
        },
    }
}

pub fn rollout_in_scope(principal: &Principal, owner: &str) -> (r: Result<(), Refusal>)
    ensures
        r == rollout_allowed(principal@, owner@),
{
    match text::split_once(owner, '/') {
        None => Err(Refusal::OwnerNeedsNamespace),
        Some((namespace, _)) => if principal.allows(namespace.as_str()) {
            Ok(())
        } else {
            Err(Refusal::RolloutOutsideScope)
        },
    }
}

/// Whether somebody may have an Ingress of a namespace checked.
pub fn ingress_in_scope(principal: &Principal, namespace: &Option<String>) -> (r: Result<
    (),
    Refusal,
>)
    ensures
        r == if namespace is Some && principal@.allows(namespace->0@) {
            Ok::<(), Refusal>(())
        } else {
            Err(Refusal::NamespaceOutsideScope)
        },
{
    match namespace {
        Some(n) => if principal.allows(n.as_str()) {
            Ok(())
        } else {
            Err(Refusal::NamespaceOutsideScope)
        },
        None => Err(Refusal::NamespaceOutsideScope),
    }
}

// ---------------------------------------------------------------------------
// Checks of files
// ---------------------------------------------------------------------------

/// A file to check, and the version that it would follow.
#[derive(Debug)]
pub struct FileRequest {
    pub config_path: String,
    pub expected_version: u64,
}

/// Whether somebody may have a file checked: the process reads files, and it takes a writer of everything.
pub fn file_gate(file_mode: bool, principal: &Principal) -> (r: Result<(), Refusal>)
    ensures
        r == if file_mode && principal@.global() && principal@.writer() {
            Ok::<(), Refusal>(())
        } else {
            Err(Refusal::FileNeedsGlobalWriter)
        },
{
    if !file_mode || !principal.global() || !principal.writer() {
        Err(Refusal::FileNeedsGlobalWriter)
    } else {
        Ok(())
    }
}

/// Whether a file is checked against what runs.
pub fn version_gate(request: &FileRequest, version: u64) -> (r: Result<(), Refusal>)
    ensures
        r == if request.expected_version == version {
            Ok::<(), Refusal>(())
        } else {
            Err(Refusal::VersionChanged)
        },
{
    if request.expected_version != version {
        Err(Refusal::VersionChanged)
    } else {
        Ok(())
    }
}

/// The status of a check of a file: the file is valid or not, and what ran may have changed meanwhile; a
/// check that did not end has no verdict.
pub open spec fn file_verdict(valid: Option<bool>, base: u64, version: u64) -> Result<u16, Refusal> {
    match valid {
        Some(true) => if version != base {
            Err(Refusal::VersionChangedMeanwhile)
        } else {
            Ok(200)
        },
        Some(false) => Ok(400),
        None => Err(Refusal::PreflightFailed),
    }
}

pub fn conclude_file(valid: Option<bool>, base: u64, version: u64) -> (r: Result<u16, Refusal>)
    ensures
        r == file_verdict(valid, base, version),
{
    match valid {
        Some(valid) => if valid {
            if version != base {
                Err(Refusal::VersionChangedMeanwhile)
            } else {
                Ok(200)
            }
        } else {
            Ok(400)
        },
        None => Err(Refusal::PreflightFailed),
    }
}

// ---------------------------------------------------------------------------
// Explanations
// ---------------------------------------------------------------------------

/// What an explanation is asked for.
#[derive(Debug)]
pub struct Question {
    pub listener: Socket,
    pub host: String,
    pub path: String,
}

/// What a `Question` holds.
#[verifier::ext_equal]
pub ghost struct Point {
    pub listener: Socket,
    pub host: Seq<char>,
    pub path: Seq<char>,
}

impl View for Question {
    type V = Point;

    open spec fn view(&self) -> Point {
        Point { listener: self.listener, host: self.host@, path: self.path@ }
    }
}

/// The value of the last pair of a name.
pub open spec fn last_value(v: Seq<(Seq<char>, Seq<char>)>, name: Seq<char>) -> Option<Seq<char>>
    decreases v.len(),
{
    if v.len() == 0 {
        None
    } else if v.last().0 == name {
        Some(v.last().1)
    } else {
        last_value(v.drop_last(), name)
    }
}

fn find_last(v: &Vec<(String, String)>, name: &str) -> (r: Option<String>)
    ensures
        text::opt(r) == last_value(text::pairs(v@), name@),
{
    let ghost all = text::pairs(v@);
    let mut i: usize = v.len();
    assert(all.take(i as int) =~= all);
    while i > 0
        invariant
            i <= v.len(),
            all == text::pairs(v@),
            last_value(all.take(i as int), name@) == last_value(all, name@),
        decreases i,
    {
        assert(all.take(i as int).drop_last() =~= all.take(i - 1));
        assert(all.take(i as int).last() == (v@[i - 1].0@, v@[i - 1].1@));
        if text::same(v[i - 1].0.as_str(), name) {
            return Some(v[i - 1].1.clone());
        }
        i -= 1;
    }
    None
}

/// What an explanation is asked for, by the pairs of the query.
pub open spec fn point(v: Seq<(Seq<char>, Seq<char>)>, listeners: Seq<Listener>) -> Result<
    Point,
    Refusal,
> {
    let named = match last_value(v, "listener"@) {
        Some(s) => parsed_socket(s),
        None => None,
    };
    match listener_of(named, listeners) {
        None => Err(Refusal::MissingListener),
        Some(listener) => Ok(
            Point {
                listener,
                host: match last_value(v, "host"@) {
                    Some(s) => s,
                    None => Seq::empty(),
                },
                path: match last_value(v, "path"@) {
                    Some(s) => s,
                    None => "/"@,
                },
            },
        ),
    }
}

pub open spec fn point_of(r: Result<Question, Refusal>) -> Result<Point, Refusal> {
    match r {
        Ok(q) => Ok(q@),
        Err(e) => Err(e),
    }
}

/// What an explanation is asked for, by the pairs of the query.
pub fn read_question(args: &Vec<(String, String)>, listeners: &Vec<Listener>) -> (r: Result<
    Question,
    Refusal,
>)
    ensures
        point_of(r) == point(text::pairs(args@), listeners@),
{
    let named = match find_last(args, "listener") {
        Some(s) => parse_socket(s.as_str()),
        None => None,
    };
    match pick_listener(named, listeners) {
        None => Err(Refusal::MissingListener),
        Some(listener) => {
            let host = match find_last(args, "host") {
                Some(s) => s,
                None => {
                    let s = String::new();
                    assert(s@ =~= Seq::<char>::empty());
                    s
                },
            };
            let path = match find_last(args, "path") {
                Some(s) => s,
                None => "/".to_owned(),
            };
            Ok(Question { listener, host, path })
        },
    }
}

/// What an explanation is asked for, by the query of the request.
pub fn question(query: &str, listeners: &Vec<Listener>) -> (r: Result<Question, Refusal>)
    ensures
        point_of(r) == point(form_pairs(query@), listeners@),
{
    let args = parse_form(query);
    read_question(&args, listeners)
}

/// The path that an explanation is about: normal, and without a query.
pub open spec fn explained_path(path: Seq<char>) -> Result<Seq<char>, PathError> {
    normal_path(
        match text::split_once_spec(path, '?') {
            Some((p, _)) => p,
            None => path,
        },
    )
}

pub fn explain_path(path: &str) -> (r: Result<String, PathError>)
    ensures
        match r {
            Ok(p) => explained_path(path@) == Ok::<Seq<char>, PathError>(p@),
            Err(e) => explained_path(path@) == Err::<Seq<char>, PathError>(e),
        },
{
    match text::split_once(path, '?') {
        Some((p, _)) => normalized_path(p.as_str()),
        None => normalized_path(path),
    }
}

// ---------------------------------------------------------------------------
// Laws
// ---------------------------------------------------------------------------

/// Nothing is rolled back but by a writer of everything, and nothing without being put on record.
pub proof fn law_rollbacks_need_a_global_writer(path: Seq<char>, method: Seq<char>, h: Holder)
    requires
        opened(path, Some(h)) is Attempt,
        tasked(path, method, h) is Rollback,
    ensures
        h.writer() && h.global(),
        method == "POST"@,
{
}

/// No answer is to be kept, whatever it is.
pub proof fn law_answers_are_not_kept(content_type: Seq<char>)
    ensures
        answer_fields(content_type).contains(("Cache-Control"@, "no-store"@)),
{
    assert(answer_fields(content_type)[1] == ("Cache-Control"@, "no-store"@));
}

/// Nobody unknown gets further than a refusal.
pub proof fn law_strangers_are_refused(path: Seq<char>)
    requires
        text::starts(path, "/v1/"@),
    ensures
        opened(path, None) == Door::Refused(Refusal::Unauthenticated),
{
}

/// A reader changes nothing: neither rollouts nor what runs.
pub proof fn law_readers_change_nothing(path: Seq<char>, method: Seq<char>, h: Holder)
    requires
        !h.writer(),
        opened(path, Some(h)) is Attempt,
    ensures
        !(tasked(path, method, h) is Rollback),
        !(tasked(path, method, h) is Rollouts),
{
}

/// Each path has its task, and needs its method; what is of the whole needs a global holder.
pub proof fn law_paths_have_their_task(method: Seq<char>, h: Holder)
    ensures
        tasked("/v1/config"@, "GET"@, h) == Task::Config,
        tasked("/v1/routes"@, "GET"@, h) == Task::Routes,
        tasked("/v1/backends"@, "GET"@, h) == Task::Backends,
        tasked("/v1/explain"@, "GET"@, h) == Task::Explain,
        method != "GET"@ ==> tasked("/v1/config"@, method, h) == Task::Refused(Refusal::NeedsGet),
        h.global() ==> tasked("/v1/fleet"@, "GET"@, h) == Task::Fleet && tasked("/v1/history"@, "GET"@, h)
            == Task::History,
        !h.global() ==> tasked("/v1/fleet"@, "GET"@, h) == Task::Refused(Refusal::FleetNeedsGlobal) && tasked(
            "/v1/history"@,
            "GET"@,
            h,
        ) == Task::Refused(Refusal::HistoryNeedsGlobal),
{
    lemma_no_rollback();
    reveal_strlit("/v1/config");
    reveal_strlit("/v1/validate");
    assert("/v1/config"@.len() != "/v1/validate"@.len());
    reveal_strlit("/v1/validate-ingress");
    assert("/v1/config"@.len() != "/v1/validate-ingress"@.len());
    reveal_strlit("/v1/validate-gateway");
    assert("/v1/config"@.len() != "/v1/validate-gateway"@.len());
    reveal_strlit("/v1/rollouts");
    assert("/v1/config"@.len() != "/v1/rollouts"@.len());
    reveal_strlit("/v1/simulate");
    assert("/v1/config"@.len() != "/v1/simulate"@.len());
    reveal_strlit("/v1/fleet");
    assert("/v1/config"@.len() != "/v1/fleet"@.len());
    reveal_strlit("/v1/routes");
    reveal_strlit("/v1/validate");
    assert("/v1/routes"@.len() != "/v1/validate"@.len());
    reveal_strlit("/v1/validate-ingress");
    assert("/v1/routes"@.len() != "/v1/validate-ingress"@.len());
    reveal_strlit("/v1/validate-gateway");
    assert("/v1/routes"@.len() != "/v1/validate-gateway"@.len());
    reveal_strlit("/v1/rollouts");
    assert("/v1/routes"@.len() != "/v1/rollouts"@.len());
    reveal_strlit("/v1/simulate");
    assert("/v1/routes"@.len() != "/v1/simulate"@.len());
    reveal_strlit("/v1/fleet");
    assert("/v1/routes"@.len() != "/v1/fleet"@.len());
    reveal_strlit("/v1/config");
    assert("/v1/routes"@[4] != "/v1/config"@[4]);
    reveal_strlit("/v1/backends");
    reveal_strlit("/v1/validate");
    assert("/v1/backends"@[4] != "/v1/validate"@[4]);
    reveal_strlit("/v1/validate-ingress");
    assert("/v1/backends"@.len() != "/v1/validate-ingress"@.len());
    reveal_strlit("/v1/validate-gateway");
    assert("/v1/backends"@.len() != "/v1/validate-gateway"@.len());
    reveal_strlit("/v1/rollouts");
    assert("/v1/backends"@[4] != "/v1/rollouts"@[4]);
    reveal_strlit("/v1/simulate");
    assert("/v1/backends"@[4] != "/v1/simulate"@[4]);
    reveal_strlit("/v1/fleet");
    assert("/v1/backends"@.len() != "/v1/fleet"@.len());
    reveal_strlit("/v1/config");
    assert("/v1/backends"@.len() != "/v1/config"@.len());
    reveal_strlit("/v1/routes");
    assert("/v1/backends"@.len() != "/v1/routes"@.len());
    reveal_strlit("/v1/history");
    reveal_strlit("/v1/validate");
    assert("/v1/history"@.len() != "/v1/validate"@.len());
    reveal_strlit("/v1/validate-ingress");
    assert("/v1/history"@.len() != "/v1/validate-ingress"@.len());
    reveal_strlit("/v1/validate-gateway");
    assert("/v1/history"@.len() != "/v1/validate-gateway"@.len());
    reveal_strlit("/v1/rollouts");
    assert("/v1/history"@.len() != "/v1/rollouts"@.len());
    reveal_strlit("/v1/simulate");
    assert("/v1/history"@.len() != "/v1/simulate"@.len());
    reveal_strlit("/v1/fleet");
    assert("/v1/history"@.len() != "/v1/fleet"@.len());
    reveal_strlit("/v1/config");
    assert("/v1/history"@.len() != "/v1/config"@.len());
    reveal_strlit("/v1/routes");
    assert("/v1/history"@.len() != "/v1/routes"@.len());
    reveal_strlit("/v1/backends");
    assert("/v1/history"@.len() != "/v1/backends"@.len());
    reveal_strlit("/v1/explain");
    reveal_strlit("/v1/validate");
    assert("/v1/explain"@.len() != "/v1/validate"@.len());
    reveal_strlit("/v1/validate-ingress");
    assert("/v1/explain"@.len() != "/v1/validate-ingress"@.len());
    reveal_strlit("/v1/validate-gateway");
    assert("/v1/explain"@.len() != "/v1/validate-gateway"@.len());
    reveal_strlit("/v1/rollouts");
    assert("/v1/explain"@.len() != "/v1/rollouts"@.len());
    reveal_strlit("/v1/simulate");
    assert("/v1/explain"@.len() != "/v1/simulate"@.len());
    reveal_strlit("/v1/fleet");
    assert("/v1/explain"@.len() != "/v1/fleet"@.len());
    reveal_strlit("/v1/config");
    assert("/v1/explain"@.len() != "/v1/config"@.len());
    reveal_strlit("/v1/routes");
    assert("/v1/explain"@.len() != "/v1/routes"@.len());
    reveal_strlit("/v1/backends");
    assert("/v1/explain"@.len() != "/v1/backends"@.len());
    reveal_strlit("/v1/history");
    assert("/v1/explain"@[4] != "/v1/history"@[4]);
    reveal_strlit("/v1/fleet");
    reveal_strlit("/v1/validate");
    assert("/v1/fleet"@.len() != "/v1/validate"@.len());
    reveal_strlit("/v1/validate-ingress");
    assert("/v1/fleet"@.len() != "/v1/validate-ingress"@.len());
    reveal_strlit("/v1/validate-gateway");
    assert("/v1/fleet"@.len() != "/v1/validate-gateway"@.len());
    reveal_strlit("/v1/rollouts");
    assert("/v1/fleet"@.len() != "/v1/rollouts"@.len());
    reveal_strlit("/v1/simulate");
    assert("/v1/fleet"@.len() != "/v1/simulate"@.len());
}

proof fn lemma_no_rollback()
    ensures
        !is_rollback("/v1/config"@),
        !is_rollback("/v1/routes"@),
        !is_rollback("/v1/backends"@),
        !is_rollback("/v1/history"@),
        !is_rollback("/v1/explain"@),
        !is_rollback("/v1/fleet"@),
{
    reveal_strlit("/v1/rollback/");
    reveal_strlit("/v1/config");
    reveal_strlit("/v1/routes");
    reveal_strlit("/v1/backends");
    reveal_strlit("/v1/history");
    reveal_strlit("/v1/explain");
    reveal_strlit("/v1/fleet");
    assert("/v1/rollback/"@.len() == 13);
    assert("/v1/backends"@.len() == 12);
}

/// What is checked and tried has its task with any method; rollouts are for writers.
pub proof fn law_changes_have_their_task(method: Seq<char>, h: Holder)
    ensures
        tasked("/v1/validate"@, method, h) == Task::ValidateFile,
        tasked("/v1/validate-ingress"@, method, h) == Task::ValidateIngress,
        tasked("/v1/validate-gateway"@, method, h) == Task::ValidateGateway,
        tasked("/v1/simulate"@, method, h) == Task::Simulate,
        h.writer() ==> tasked("/v1/rollouts"@, method, h) == Task::Rollouts,
        !h.writer() ==> tasked("/v1/rollouts"@, method, h) == Task::Refused(Refusal::RolloutNeedsWriter),
{
    reveal_strlit("/v1/validate-ingress");
    reveal_strlit("/v1/validate");
    assert("/v1/validate-ingress"@.len() != "/v1/validate"@.len());
    reveal_strlit("/v1/validate-gateway");
    reveal_strlit("/v1/validate");
    assert("/v1/validate-gateway"@.len() != "/v1/validate"@.len());
    reveal_strlit("/v1/validate-ingress");
    assert("/v1/validate-gateway"@[13] != "/v1/validate-ingress"@[13]);
    reveal_strlit("/v1/rollouts");
    reveal_strlit("/v1/validate");
    assert("/v1/rollouts"@[4] != "/v1/validate"@[4]);
    reveal_strlit("/v1/validate-ingress");
    assert("/v1/rollouts"@.len() != "/v1/validate-ingress"@.len());
    reveal_strlit("/v1/validate-gateway");
    assert("/v1/rollouts"@.len() != "/v1/validate-gateway"@.len());
    reveal_strlit("/v1/simulate");
    reveal_strlit("/v1/validate");
    assert("/v1/simulate"@[4] != "/v1/validate"@[4]);
    reveal_strlit("/v1/validate-ingress");
    assert("/v1/simulate"@.len() != "/v1/validate-ingress"@.len());
    reveal_strlit("/v1/validate-gateway");
    assert("/v1/simulate"@.len() != "/v1/validate-gateway"@.len());
    reveal_strlit("/v1/rollouts");
    assert("/v1/simulate"@[4] != "/v1/rollouts"@[4]);
}

/// A rollback is to the version of its path, and recorded as such.
pub proof fn law_rollbacks_are_to_a_version(n: u64, h: Holder)
    requires
        h.writer() && h.global(),
    ensures
        tasked("/v1/rollback/"@ + text::decimal(n as nat), "POST"@, h) == Task::Rollback(Some(n)),
        tasked("/v1/rollback/"@ + text::decimal(n as nat), "GET"@, h) == Task::Refused(
            Refusal::RollbackNeedsPost,
        ),
        operation_of("/v1/rollback/"@ + text::decimal(n as nat)) == "rollback/"@ + text::decimal(n as nat),
        opened("/v1/rollback/"@ + text::decimal(n as nat), Some(h)) == Door::Attempt(
            "rollback/"@ + text::decimal(n as nat),
        ),
{
    text::lemma_decimal_reads_back(n as nat);
    let d = text::decimal(n as nat);
    let p = "/v1/rollback/"@ + d;
    text::lemma_prefixed("/v1/rollback/"@, d);
    reveal_strlit("/v1/rollback/");
    reveal_strlit("/v1/");
    assert(p.take("/v1/"@.len() as int) =~= "/v1/"@);
    reveal_strlit("GET");
    reveal_strlit("POST");
    assert("GET"@.len() != "POST"@.len());
    reveal_strlit("/v1/validate");
    reveal_strlit("/v1/validate-ingress");
    reveal_strlit("/v1/validate-gateway");
    reveal_strlit("/v1/rollouts");
    reveal_strlit("/v1/simulate");
    assert(p[4] == 'r' && p[8] == 'b');
    assert("/v1/validate"@[4] == 'v');
    assert("/v1/validate-ingress"@[4] == 'v');
    assert("/v1/validate-gateway"@[4] == 'v');
    assert("/v1/rollouts"@[8] == 'o');
    assert("/v1/simulate"@[4] == 's');
}

/// The metrics are open to all, and nothing else is.
pub proof fn law_metrics_are_open(path: Seq<char>, p: Option<Holder>)
    ensures
        !text::starts(path, "/v1/"@) ==> opened(path, p) == Door::Telemetry,
        text::starts(path, "/v1/"@) ==> opened(path, p) != Door::Telemetry,
{
}

/// A rollout is in the scope of those who may see its namespace.
pub proof fn law_rollouts_are_in_their_namespace(h: Holder, ns: Seq<char>, name: Seq<char>)
    requires
        !ns.contains('/'),
    ensures
        h.allows(ns) ==> rollout_allowed(h, ns + seq!['/'] + name) == Ok::<(), Refusal>(()),
        !h.allows(ns) ==> rollout_allowed(h, ns + seq!['/'] + name) == Err::<(), Refusal>(
            Refusal::RolloutOutsideScope,
        ),
        rollout_allowed(h, ns) == Err::<(), Refusal>(Refusal::OwnerNeedsNamespace),
{
    let s = ns + seq!['/'] + name;
    assert forall|i: int| 0 <= i < ns.len() implies s[i] != '/' && ns[i] != '/' by {
        assert(ns.contains(ns[i]));
    }
    text::lemma_position_is(s, '/', ns.len() as int);
    text::lemma_position_is(ns, '/', ns.len() as int);
    assert(s.take(ns.len() as int) =~= ns);
}

/// A checked file is good where the configuration is still the same.
pub proof fn law_files_are_checked_for_one_version(base: u64, version: u64)
    ensures
        file_verdict(Some(true), base, base) == Ok::<u16, Refusal>(200),
        base != version ==> file_verdict(Some(true), base, version) == Err::<u16, Refusal>(
            Refusal::VersionChangedMeanwhile,
        ),
        file_verdict(Some(false), base, version) == Ok::<u16, Refusal>(400),
        file_verdict(None, base, version) == Err::<u16, Refusal>(Refusal::PreflightFailed),
{
}

/// A refusal has its status.
pub proof fn law_refused_questions_have_a_status()
    ensures
        Refusal::Unauthenticated.spec_status() == 401,
        Refusal::RollbackNeedsGlobalWriter.spec_status() == 403,
        Refusal::RolloutNeedsWriter.spec_status() == 403,
        Refusal::RouteOutsideScope.spec_status() == 403,
        Refusal::NeedsGet.spec_status() == 405,
        Refusal::NotFound.spec_status() == 404,
        Refusal::SimulationBudget.spec_status() == 429,
        Refusal::VersionChanged.spec_status() == 409,
        Refusal::AnswerTooLong.spec_status() == 413,
        Refusal::BodyDeadline.spec_status() == 408,
        Refusal::InvalidJson.spec_status() == 400,
        Refusal::AuditUnavailable.spec_status() == 503,
{
}

/// What is asked for is the last value of its name; the listener is the first where none is named, and the path is
/// all.
pub proof fn law_questions_name_a_point(v: Seq<(Seq<char>, Seq<char>)>, listeners: Seq<Listener>)
    ensures
        listeners.len() == 0 ==> point(Seq::empty(), listeners) == Err::<Point, Refusal>(Refusal::MissingListener),
        listeners.len() > 0 ==> point(Seq::empty(), listeners) == Ok::<Point, Refusal>(
            Point { listener: listeners[0].address, host: Seq::empty(), path: "/"@ },
        ),
{
}

/// A later value counts over an earlier one.
pub proof fn law_last_values_count(v: Seq<(Seq<char>, Seq<char>)>, name: Seq<char>, value: Seq<char>, other: Seq<char>)
    ensures
        last_value(v.push((name, value)), name) == Some(value),
        other != name ==> last_value(v.push((name, value)), other) == last_value(v, other),
{
    assert(v.push((name, value)).drop_last() =~= v);
}

/// What is explained is the path before the query.
pub proof fn law_queries_are_not_explained(path: Seq<char>, query: Seq<char>)
    requires
        !path.contains('?'),
    ensures
        explained_path(path + seq!['?'] + query) == normal_path(path),
        explained_path(path) == normal_path(path),
{
    text::law_texts_are_split_once(path, '?', query);
}

} // verus!
