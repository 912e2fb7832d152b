//! The HTTP service: its routes, its answers and its start-up.

use crate::config::{ServeArgs, ServerConfig, DEFAULT_CONCURRENCY, DEFAULT_MAX_BODY_MB};
use crate::engine::{spec_version_text, version_text};
use crate::image_dpi::{
    dpi_granted, dpi_granted_or_rejected, dpi_rejection, parse_image_dpi, ImageDpi,
};
use crate::text::{
    decimal, decimal_has_no_zero_in_front, decimal_reads_back, decimal_string, digits_value, is_digit,
};
use axum::extract::DefaultBodyLimit;
use std::io::ErrorKind;
use tokio::sync::Semaphore;
use vstd::hash_map::StringHashMap;
use vstd::prelude::*;

verus! {

/// The counting semaphore of tokio, whose inside is not looked at.
#[verifier::external_type_specification]
#[verifier::external_body]
pub struct ExSemaphore(Semaphore);

/// The body limit of axum, whose inside is not looked at.
#[verifier::external_type_specification]
#[verifier::external_body]
pub struct ExDefaultBodyLimit(DefaultBodyLimit);

/// The kind of an error of the system, whose inside is not looked at.
#[verifier::external_type_specification]
#[verifier::external_body]
pub struct ExErrorKind(ErrorKind);

/// Number of permits that a semaphore was made with, taken or not.
pub uninterp spec fn permits(semaphore: Semaphore) -> nat;

/// Largest request body, in bytes, that a limit was made to let through.
pub uninterp spec fn allowed_bytes(limit: DefaultBodyLimit) -> nat;

/// Most permits that a semaphore can hold.
pub const MAX_PERMITS: usize = usize::MAX / 8;

/// Bytes in a megabyte.
pub const MEGABYTE: usize = 1_048_576;

/// `tokio::sync::Semaphore::new` makes a semaphore with the given number of
/// permits. It panics above `Semaphore::MAX_PERMITS`, an eighth of the range.
#[verifier::external_body]
fn new_semaphore(count: usize) -> (semaphore: Semaphore)
    requires
        count <= MAX_PERMITS,
    ensures
        permits(semaphore) == count,
{
    Semaphore::new(count)
}

/// `axum::extract::DefaultBodyLimit::max` makes a layer that limits request
/// bodies to the given number of bytes.
#[verifier::external_body]
fn new_body_limit(bytes: usize) -> (limit: DefaultBodyLimit)
    ensures
        allowed_bytes(limit) == bytes,
{
    DefaultBodyLimit::max(bytes)
}

/// What the service can be asked.
#[derive(Clone, Copy, Debug, PartialEq, Eq, Structural)]
pub enum Endpoint {
    /// Liveness probe.
    Health,
    /// Which build is running.
    Version,
    /// Conversion of a document.
    Convert,
}

#[derive(Clone, Copy, Debug, PartialEq, Eq, Structural)]
pub enum Method {
    Get,
    Post,
}

impl Endpoint {
    pub open spec fn spec_path(self) -> Seq<char> {
        match self {
            Endpoint::Health => "/health"@,
            Endpoint::Version => "/version"@,
            Endpoint::Convert => "/convert"@,
        }
    }

    pub open spec fn spec_method(self) -> Method {
        match self {
            Endpoint::Convert => Method::Post,
            _ => Method::Get,
        }
    }

    /// Path that the endpoint answers on.
    pub fn path(self) -> (path: &'static str)
        ensures
            path@ == self.spec_path(),
    {
        match self {
            Endpoint::Health => "/health",
            Endpoint::Version => "/version",
            Endpoint::Convert => "/convert",
        }
    }

    /// HTTP method that the endpoint answers to.
    pub fn method(self) -> (method: Method)
        ensures
            method == self.spec_method(),
    {
        match self {
            Endpoint::Convert => Method::Post,
            _ => Method::Get,
        }
    }
}

/// No two endpoints share a path.
pub proof fn paths_are_distinct(a: Endpoint, b: Endpoint)
    requires
        a.spec_path() == b.spec_path(),
    ensures
        a == b,
{
    reveal_strlit("/health");
    reveal_strlit("/version");
    reveal_strlit("/convert");
    assert("/health"@[1] == 'h' && "/version"@[1] == 'v' && "/convert"@[1] == 'c');
}

/// State that requests share.
pub struct AppState {
    /// Caps how many CPU-bound conversions run at once; excess requests queue.
    pub convert_slots: Semaphore,
}

/// What the router is put together from.
pub struct RouterParts {
    pub endpoints: Vec<Endpoint>,
    pub body_limit: DefaultBodyLimit,
    pub state: AppState,
}

impl ServerConfig {
    /// The limits that these settings ask for can be set.
    pub open spec fn within_limits(self) -> bool {
        &&& self.max_body_mb * MEGABYTE <= usize::MAX
        &&& self.concurrency <= MAX_PERMITS
    }

    /// Whether a router can be built for these settings.
    pub fn is_within_limits(&self) -> (b: bool)
        ensures
            b == self.within_limits(),
    {
        self.max_body_mb <= usize::MAX / MEGABYTE && self.concurrency <= MAX_PERMITS
    }

    /// Address to listen on, `host:port`.
    pub open spec fn spec_address(self) -> Seq<char> {
        self.host@ + ":"@ + decimal(self.port as nat)
    }

    /// Address to listen on, `host:port`.
    pub fn address(&self) -> (address: String)
        ensures
            address@ == self.spec_address(),
    {
        let port: String = decimal_string(self.port as u64);
        self.host.clone().concat(":").concat(port.as_str())
    }
}

/// The default settings are within the limits, on any machine that a semaphore
/// has enough permits for.
pub proof fn defaults_are_within_limits(args: ServeArgs, cpus: Option<usize>, config: ServerConfig)
    requires
        args.max_body_mb == DEFAULT_MAX_BODY_MB,
        args.concurrency == DEFAULT_CONCURRENCY,
        cpus matches Some(n) ==> n <= MAX_PERMITS,
        args.configures(cpus, config),
    ensures
        config.within_limits(),
{
}

/// Every endpoint, bodies of up to the configured number of megabytes, and one
/// conversion slot for each conversion that may run at once, at least one.
pub fn build_router(config: &ServerConfig) -> (parts: RouterParts)
    requires
        config.within_limits(),
    ensures
        parts.endpoints@ == seq![Endpoint::Health, Endpoint::Version, Endpoint::Convert],
        allowed_bytes(parts.body_limit) == config.max_body_mb * MEGABYTE,
        permits(parts.state.convert_slots) == if config.concurrency == 0 {
            1
        } else {
            config.concurrency as nat
        },
{
    let mut endpoints: Vec<Endpoint> = Vec::new();
    endpoints.push(Endpoint::Health);
    endpoints.push(Endpoint::Version);
    endpoints.push(Endpoint::Convert);
    let slots: usize = if config.concurrency == 0 {
        1
    } else {
        config.concurrency
    };
    RouterParts {
        endpoints,
        body_limit: new_body_limit(config.max_body_mb * MEGABYTE),
        state: AppState { convert_slots: new_semaphore(slots) },
    }
}

/// Body of an HTTP answer.
#[derive(Debug)]
pub enum Body {
    Text(String),
    Bytes(Vec<u8>),
}

/// An HTTP answer.
#[derive(Debug)]
pub struct Reply {
    pub status: u16,
    pub content_type: &'static str,
    pub content_disposition: Option<&'static str>,
    pub body: Body,
}

pub const OK: u16 = 200;

pub const BAD_REQUEST: u16 = 400;

pub const UNPROCESSABLE_ENTITY: u16 = 422;

pub const INTERNAL_SERVER_ERROR: u16 = 500;

impl Reply {
    /// This answer is plain text.
    pub open spec fn is_text(self, status: u16, text: Seq<char>) -> bool {
        &&& self.status == status
        &&& self.content_type@ == "text/plain; charset=utf-8"@
        &&& self.content_disposition is None
        &&& self.body matches Body::Text(body) && body@ == text
    }

    /// This answer is a PDF document to be saved.
    pub open spec fn is_pdf(self, pdf: Seq<u8>) -> bool {
        &&& self.status == OK
        &&& self.content_type@ == "application/pdf"@
        &&& self.content_disposition matches Some(disposition) && disposition@
            == "attachment; filename=\"output.pdf\""@
        &&& self.body matches Body::Bytes(bytes) && bytes@ == pdf
    }

    fn text(status: u16, text: String) -> (reply: Reply)
        ensures
            reply.is_text(status, text@),
    {
        Reply {
            status,
            content_type: "text/plain; charset=utf-8",
            content_disposition: None,
            body: Body::Text(text),
        }
    }
}

/// Answer of the liveness probe.
pub fn health() -> (reply: Reply)
    ensures
        reply.is_text(OK, "ok"@),
{
    Reply::text(OK, String::from_str("ok"))
}

/// Answer that names the running build.
pub fn version(service: &str, engine: &str) -> (reply: Reply)
    ensures
        reply.is_text(OK, spec_version_text(service@, engine@)),
{
    Reply::text(OK, version_text(service, engine))
}

/// What happens to a conversion request next.
pub enum ConvertStep {
    /// It is answered without a conversion.
    Answer(Reply),
    /// It waits for a conversion slot, then its body is converted.
    Render(ImageDpi),
}

pub open spec fn empty_body_message() -> Seq<char> {
    "request body is empty; send the DOCX file bytes as the body"@
}

/// Checks a conversion request. A rejected resolution is reported first, then
/// an empty body; anything else is converted at the resolution asked for.
pub fn convert(params: &StringHashMap<String>, body: &[u8]) -> (step: ConvertStep)
    ensures
        match dpi_rejection(params@) {
            Some(message) => step matches ConvertStep::Answer(reply) && reply.is_text(
                BAD_REQUEST,
                message,
            ),
            None => if body@.len() == 0 {
                step matches ConvertStep::Answer(reply) && reply.is_text(
                    BAD_REQUEST,
                    empty_body_message(),
                )
            } else {
                step matches ConvertStep::Render(dpi) && dpi_granted(params@, dpi@)
            },
        },
{
    match parse_image_dpi(params) {
        Err(message) => ConvertStep::Answer(Reply::text(BAD_REQUEST, message)),
        Ok(dpi) => {
            if body.len() == 0 {
                ConvertStep::Answer(
                    Reply::text(
                        BAD_REQUEST,
                        String::from_str(
                            "request body is empty; send the DOCX file bytes as the body",
                        ),
                    ),
                )
            } else {
                ConvertStep::Render(dpi)
            }
        },
    }
}

/// How a conversion ended.
pub enum Outcome {
    /// The document as PDF.
    Pdf(Vec<u8>),
    /// The converter refused the document, for this reason.
    Failed(String),
    /// The converter panicked, for this reason.
    Panicked(String),
}

/// `reply` answers a conversion that ended like this.
pub open spec fn answers(outcome: Outcome, reply: Reply) -> bool {
    match outcome {
        Outcome::Pdf(pdf) => reply.is_pdf(pdf@),
        Outcome::Failed(cause) => reply.is_text(
            UNPROCESSABLE_ENTITY,
            "conversion failed: "@ + cause@,
        ),
        Outcome::Panicked(_) => reply.is_text(
            INTERNAL_SERVER_ERROR,
            "internal error during conversion"@,
        ),
    }
}

/// Answers a request whose conversion has ended.
pub fn convert_reply(outcome: Outcome) -> (reply: Reply)
    ensures
        answers(outcome, reply),
{
    match outcome {
        Outcome::Pdf(pdf) => Reply {
            status: OK,
            content_type: "application/pdf",
            content_disposition: Some("attachment; filename=\"output.pdf\""),
            body: Body::Bytes(pdf),
        },
        Outcome::Failed(cause) => Reply::text(
            UNPROCESSABLE_ENTITY,
            String::from_str("conversion failed: ").concat(cause.as_str()),
        ),
        Outcome::Panicked(_) => Reply::text(
            INTERNAL_SERVER_ERROR,
            String::from_str("internal error during conversion"),
        ),
    }
}

/// The status of an answer tells how the conversion ended, and only a
/// finished conversion answers with a document, which is the converter's own.
pub proof fn status_tells_outcome(outcome: Outcome, reply: Reply)
    requires
        answers(outcome, reply),
    ensures
        reply.status == OK <==> outcome is Pdf,
        reply.status == UNPROCESSABLE_ENTITY <==> outcome is Failed,
        reply.status == INTERNAL_SERVER_ERROR <==> outcome is Panicked,
        reply.body matches Body::Bytes(bytes) ==> outcome matches Outcome::Pdf(pdf) && pdf@ == bytes@,
{
}

/// A log line about the conversion request with number `n`.
pub open spec fn request_line(n: u64, text: Seq<char>) -> Seq<char> {
    "#"@ + decimal(n as nat) + " "@ + text
}

/// The log line that a conversion starts with.
pub fn start_line(n: u64, body_len: usize) -> (line: String)
    ensures
        line@ == request_line(n, "start: "@ + decimal(body_len as nat) + " bytes"@),
{
    let number: String = decimal_string(n);
    let len: String = decimal_string(body_len as u64);
    let text: String = String::from_str("start: ").concat(len.as_str()).concat(" bytes");
    String::from_str("#").concat(number.as_str()).concat(" ").concat(text.as_str())
}

/// What the log says of a conversion that has ended.
pub open spec fn outcome_text(outcome: Outcome) -> Seq<char> {
    match outcome {
        Outcome::Pdf(pdf) => "done: "@ + decimal(pdf@.len()) + " bytes"@,
        Outcome::Failed(cause) => "failed: "@ + cause@,
        Outcome::Panicked(cause) => "panicked: "@ + cause@,
    }
}

/// The log line that a conversion ends with.
pub fn end_line(n: u64, outcome: &Outcome) -> (line: String)
    ensures
        line@ == request_line(n, outcome_text(*outcome)),
{
    let number: String = decimal_string(n);
    let text: String = match outcome {
        Outcome::Pdf(pdf) => {
            let len: String = decimal_string(pdf.len() as u64);
            String::from_str("done: ").concat(len.as_str()).concat(" bytes")
        },
        Outcome::Failed(cause) => String::from_str("failed: ").concat(cause.as_str()),
        Outcome::Panicked(cause) => String::from_str("panicked: ").concat(cause.as_str()),
    };
    String::from_str("#").concat(number.as_str()).concat(" ").concat(text.as_str())
}

/// How serious a log line is.
#[derive(Clone, Copy, Debug, PartialEq, Eq, Structural)]
pub enum Level {
    Info,
    Warn,
    Error,
}

/// How serious the log line is that a conversion ends with.
pub fn end_level(outcome: &Outcome) -> (level: Level)
    ensures
        level == match *outcome {
            Outcome::Pdf(_) => Level::Info,
            Outcome::Failed(_) => Level::Warn,
            Outcome::Panicked(_) => Level::Error,
        },
{
    match outcome {
        Outcome::Pdf(_) => Level::Info,
        Outcome::Failed(_) => Level::Warn,
        Outcome::Panicked(_) => Level::Error,
    }
}

/// A log line tells which request it is about, and what it says of it.
pub proof fn log_line_names_request(n: u64, m: u64, text: Seq<char>, other: Seq<char>)
    requires
        request_line(n, text) == request_line(m, other),
    ensures
        n == m,
        text == other,
{
    reveal_strlit("#");
    reveal_strlit(" ");
    decimal_reads_back(n as nat);
    decimal_reads_back(m as nat);
    let line = request_line(n, text);
    let a = decimal(n as nat);
    let b = decimal(m as nat);
    let i = a.len() as int;
    let j = b.len() as int;
    assert(line[1 + i] == ' ' && line[1 + j] == ' ');
    if i < j {
        assert(line[1 + i] == b[i]);
        assert(is_digit(b[i]));
    }
    if j < i {
        assert(line[1 + j] == a[j]);
        assert(is_digit(a[j]));
    }
    assert(a =~= line.subrange(1, 1 + i));
    assert(b =~= line.subrange(1, 1 + i));
    assert(text =~= line.skip(2 + i));
    assert(other =~= line.skip(2 + i));
}

/// What an error of the server is about.
#[derive(Clone, Copy, Debug, PartialEq, Eq)]
pub enum ServeErrorKind {
    /// The configured address is not one.
    InvalidInput,
    /// The address could not be bound, for an error of this kind.
    Bind(ErrorKind),
    /// The server itself failed, with an error of this kind.
    Server(ErrorKind),
}

#[derive(Debug)]
pub struct ServeError {
    pub kind: ServeErrorKind,
    pub message: String,
}

/// Where the start of the server stands: what is to be done next. Each of these
/// answers with a text, or with the kind and the text of an error.
pub enum Serving {
    /// Read the address; the answer is the address as the system writes it.
    ParseAddress { address: String, max_body_mb: usize },
    /// Build the router and bind the address.
    Bind { address: String, max_body_mb: usize },
    /// Log the announcement and serve until asked to stop.
    Accept { announcement: String },
    /// Nothing is left to do.
    Finished(Result<(), ServeError>),
}

pub open spec fn bind_error_message(address: Seq<char>, cause: Seq<char>) -> Seq<char> {
    "failed to bind "@ + address + " (is the port already in use?): "@ + cause
}

pub open spec fn listening_message(address: Seq<char>, max_body_mb: usize) -> Seq<char> {
    "listening on http://"@ + address + " (max body "@ + decimal(max_body_mb as nat) + " MB)"@
}

impl Serving {
    /// The server has failed.
    pub open spec fn failed(self, kind: ServeErrorKind, message: Seq<char>) -> bool {
        self matches Serving::Finished(Err(error)) && error.kind == kind && error.message@ == message
    }

    /// `next` is where the start stands once `self` was done with this answer.
    pub open spec fn leads_to(
        self,
        answer: Result<String, (ErrorKind, String)>,
        next: Serving,
    ) -> bool {
        match (self, answer) {
            (Serving::ParseAddress { max_body_mb, .. }, Ok(parsed)) => {
                next matches Serving::Bind { address, max_body_mb: limit } && address@ == parsed@
                    && limit == max_body_mb
            },
            (Serving::ParseAddress { .. }, Err((_, cause))) => next.failed(
                ServeErrorKind::InvalidInput,
                cause@,
            ),
            (Serving::Bind { address, max_body_mb }, Ok(_)) => {
                next matches Serving::Accept { announcement } && announcement@
                    == listening_message(address@, max_body_mb)
            },
            (Serving::Bind { address, .. }, Err((kind, cause))) => next.failed(
                ServeErrorKind::Bind(kind),
                bind_error_message(address@, cause@),
            ),
            (Serving::Accept { .. }, Ok(_)) => next == Serving::Finished(Ok(())),
            (Serving::Accept { .. }, Err((kind, cause))) => next.failed(
                ServeErrorKind::Server(kind),
                cause@,
            ),
            (Serving::Finished(_), _) => next == self,
        }
    }

    /// Goes on after what was to be done next was done with this answer.
    pub fn advance(self, answer: Result<String, (ErrorKind, String)>) -> (next: Serving)
        ensures
            self.leads_to(answer, next),
    {
        match self {
            Serving::ParseAddress { address: _, max_body_mb } => match answer {
                Ok(address) => Serving::Bind { address, max_body_mb },
                Err((_, message)) => Serving::Finished(
                    Err(ServeError { kind: ServeErrorKind::InvalidInput, message }),
                ),
            },
            Serving::Bind { address, max_body_mb } => match answer {
                Ok(_) => {
                    let limit: String = decimal_string(max_body_mb as u64);
                    Serving::Accept {
                        announcement: String::from_str("listening on http://").concat(
                            address.as_str(),
                        ).concat(" (max body ").concat(limit.as_str()).concat(" MB)"),
                    }
                },
                Err((kind, cause)) => Serving::Finished(
                    Err(
                        ServeError {
                            kind: ServeErrorKind::Bind(kind),
                            message: String::from_str("failed to bind ").concat(
                                address.as_str(),
                            ).concat(" (is the port already in use?): ").concat(cause.as_str()),
                        },
                    ),
                ),
            },
            Serving::Accept { announcement: _ } => match answer {
                Ok(_) => Serving::Finished(Ok(())),
                Err((kind, message)) => Serving::Finished(
                    Err(ServeError { kind: ServeErrorKind::Server(kind), message }),
                ),
            },
            Serving::Finished(result) => Serving::Finished(result),
        }
    }
}

impl Serving {
    /// Bound on the actions that are still to come.
    pub open spec fn actions_left(self) -> nat {
        match self {
            Serving::ParseAddress { .. } => 3,
            Serving::Bind { .. } => 2,
            Serving::Accept { .. } => 1,
            Serving::Finished(_) => 0,
        }
    }
}

/// The start comes to an end; requests are served only once the address was
/// bound, and only serving them to the end is a success.
pub proof fn start_is_orderly(
    before: Serving,
    answer: Result<String, (ErrorKind, String)>,
    next: Serving,
)
    requires
        before.leads_to(answer, next),
        before !is Finished,
    ensures
        next.actions_left() < before.actions_left(),
        next is Bind ==> before is ParseAddress && answer is Ok,
        next is Accept ==> before is Bind && answer is Ok,
        next == Serving::Finished(Ok(())) <==> before is Accept && answer is Ok,
        answer is Err ==> next is Finished,
{
}

/// If the address cannot be bound, nothing is announced or served: the start
/// ends with an error of the same kind, which names the address and the cause.
pub proof fn bind_failure_is_passed_on(
    start: Serving,
    address: String,
    bind: Serving,
    kind: ErrorKind,
    cause: String,
    end: Serving,
)
    requires
        start is ParseAddress,
        start.leads_to(Ok(address), bind),
        bind.leads_to(Err((kind, cause)), end),
    ensures
        bind is Bind,
        end.failed(ServeErrorKind::Bind(kind), bind_error_message(address@, cause@)),
{
}

/// Starts the server with these settings.
pub fn serve(config: &ServerConfig) -> (serving: Serving)
    ensures
        serving matches Serving::ParseAddress { address, max_body_mb } && address@
            == config.spec_address() && max_body_mb == config.max_body_mb,
{
    Serving::ParseAddress { address: config.address(), max_body_mb: config.max_body_mb }
}

/// A finished conversion is answered with its document, whole and unchanged, as
/// a PDF to be saved; a refused one with the reason, and a panic without it.
pub proof fn outcome_is_answered(outcome: Outcome, reply: Reply)
    requires
        call_ensures(convert_reply, (outcome,), reply),
    ensures
        outcome matches Outcome::Pdf(pdf) ==> {
            &&& reply.status == 200
            &&& reply.content_type@ == "application/pdf"@
            &&& reply.content_disposition matches Some(disposition) && disposition@
                == "attachment; filename=\"output.pdf\""@
            &&& reply.body matches Body::Bytes(bytes) && bytes@ == pdf@
        },
        outcome matches Outcome::Failed(cause) ==> {
            &&& reply.status == 422
            &&& reply.content_type@ == "text/plain; charset=utf-8"@
            &&& reply.content_disposition is None
            &&& reply.body matches Body::Text(text) && text@ == "conversion failed: "@ + cause@
        },
        outcome is Panicked ==> {
            &&& reply.status == 500
            &&& reply.content_type@ == "text/plain; charset=utf-8"@
            &&& reply.content_disposition is None
            &&& reply.body matches Body::Text(text) && text@ == "internal error during conversion"@
        },
{
}

/// Different documents are never answered alike.
pub proof fn answers_tell_documents_apart(a: Vec<u8>, b: Vec<u8>, first: Reply, second: Reply)
    requires
        call_ensures(convert_reply, (Outcome::Pdf(a),), first),
        call_ensures(convert_reply, (Outcome::Pdf(b),), second),
        first.body->Bytes_0@ == second.body->Bytes_0@,
    ensures
        a@ == b@,
{
}

/// The probe is answered with `ok`.
pub proof fn probe_is_answered(reply: Reply)
    requires
        call_ensures(health, (), reply),
    ensures
        reply.status == 200,
        reply.content_type@ == "text/plain; charset=utf-8"@,
        reply.content_disposition is None,
        reply.body matches Body::Text(text) && text@ == "ok"@,
{
}

/// Whoever asks for the build gets the versions of the service and of the engine.
pub proof fn build_is_told(service: &str, engine: &str, reply: Reply)
    requires
        call_ensures(version, (service, engine), reply),
    ensures
        reply.status == 200,
        reply.content_type@ == "text/plain; charset=utf-8"@,
        reply.content_disposition is None,
        reply.body matches Body::Text(text) && text@ == "dxpdf-service "@ + service@
            + " (engine: dxpdf "@ + engine@ + ")"@,
{
}

/// A request is judged by the resolution it asks for, then by its body: a
/// rejected resolution or an empty body is a bad request, said in a text, and
/// all else is converted at exactly the resolution that was read.
pub proof fn request_is_judged(
    params: &StringHashMap<String>,
    body: &[u8],
    dpi: Result<ImageDpi, String>,
    step: ConvertStep,
)
    requires
        call_ensures(parse_image_dpi, (params,), dpi),
        call_ensures(convert, (params, body), step),
    ensures
        step is Render <==> dpi is Ok && body@.len() > 0,
        step matches ConvertStep::Render(granted) ==> granted@ == dpi->Ok_0@,
        step matches ConvertStep::Answer(reply) ==> {
            &&& reply.status == 400
            &&& reply.content_type@ == "text/plain; charset=utf-8"@
            &&& reply.content_disposition is None
            &&& reply.body matches Body::Text(text) && text@ == match dpi {
                Err(message) => message@,
                Ok(_) => "request body is empty; send the DOCX file bytes as the body"@,
            }
        },
{
    dpi_granted_or_rejected(params@);
    if let ConvertStep::Render(granted) = step {
        assert(dpi_granted(params@, granted@));
        assert(dpi_granted(params@, dpi->Ok_0@));
    }
}

/// The probe and the version are got, a document is posted, each on its own path.
pub proof fn endpoints_have_their_routes(endpoint: Endpoint, path: &'static str, method: Method)
    requires
        call_ensures(Endpoint::path, (endpoint,), path),
        call_ensures(Endpoint::method, (endpoint,), method),
    ensures
        endpoint is Health ==> path@ == "/health"@ && method is Get,
        endpoint is Version ==> path@ == "/version"@ && method is Get,
        endpoint is Convert ==> path@ == "/convert"@ && method is Post,
{
}

/// The router has every endpoint once, lets bodies through up to the configured
/// number of megabytes, and converts as many documents at once as configured,
/// one at the least.
pub proof fn router_follows_settings(config: &ServerConfig, parts: RouterParts)
    requires
        call_ensures(build_router, (config,), parts),
    ensures
        forall|endpoint: Endpoint| #[trigger] parts.endpoints@.contains(endpoint),
        forall|i: int, j: int|
            0 <= i < j < parts.endpoints@.len() ==> #[trigger] parts.endpoints@[i]
                != #[trigger] parts.endpoints@[j],
        allowed_bytes(parts.body_limit) == config.max_body_mb * (1024 * 1024),
        permits(parts.state.convert_slots) >= 1,
        config.concurrency >= 1 ==> permits(parts.state.convert_slots) == config.concurrency,
        config.concurrency == 0 ==> permits(parts.state.convert_slots) == 1,
{
    assert forall|endpoint: Endpoint| #[trigger] parts.endpoints@.contains(endpoint) by {
        match endpoint {
            Endpoint::Health => {
                assert(parts.endpoints@[0] == endpoint);
            },
            Endpoint::Version => {
                assert(parts.endpoints@[1] == endpoint);
            },
            Endpoint::Convert => {
                assert(parts.endpoints@[2] == endpoint);
            },
        }
    }
}

/// Settings are turned down only if the machine cannot count the bytes, or a
/// semaphore the conversions; a router can be built for all others.
pub proof fn only_the_machine_limits_settings(config: &ServerConfig, accepted: bool)
    requires
        call_ensures(ServerConfig::is_within_limits, (config,), accepted),
    ensures
        accepted <==> config.max_body_mb * (1024 * 1024) <= usize::MAX && 8 * config.concurrency
            <= usize::MAX,
        accepted ==> call_requires(build_router, (config,)),
{
}

/// The address starts with the host as configured and a colon; what is left are
/// the digits of the port.
pub proof fn address_is_host_and_port(config: &ServerConfig, address: String)
    requires
        call_ensures(ServerConfig::address, (config,), address),
    ensures
        address@.len() > config.host@.len() + 1,
        address@.take(config.host@.len() as int) == config.host@,
        address@[config.host@.len() as int] == ':',
        forall|i: int|
            config.host@.len() < i < address@.len() ==> '0' <= #[trigger] address@[i] <= '9',
        digits_value(address@.skip(config.host@.len() as int + 1)) == config.port,
        address@[config.host@.len() as int + 1] == '0' ==> config.port == 0,
{
    let h = config.host@.len() as int;
    let port = decimal(config.port as nat);
    reveal_strlit(":");
    decimal_reads_back(config.port as nat);
    assert(address@.take(h) =~= config.host@);
    assert(address@.skip(h + 1) =~= port);
    assert forall|i: int| h < i < address@.len() implies '0' <= #[trigger] address@[i] <= '9' by {
        assert(address@[i] == port[i - h - 1]);
        assert(is_digit(port[i - h - 1]));
    }
    if address@[h + 1] == '0' && config.port != 0 {
        assert(port[0] == '0');
        decimal_has_no_zero_in_front(config.port as nat);
    }
}

/// Settings with different hosts or different ports have different addresses.
pub proof fn addresses_tell_settings_apart(
    a: &ServerConfig,
    b: &ServerConfig,
    first: String,
    second: String,
)
    requires
        call_ensures(ServerConfig::address, (a,), first),
        call_ensures(ServerConfig::address, (b,), second),
        first@ == second@,
    ensures
        a.host@ == b.host@,
        a.port == b.port,
{
    address_is_host_and_port(a, first);
    address_is_host_and_port(b, second);
    let i = a.host@.len() as int;
    let j = b.host@.len() as int;
    if i < j {
        assert('0' <= first@[j] <= '9');
    }
    if j < i {
        assert('0' <= second@[i] <= '9');
    }
}

/// The server is started on the address of its settings; once that was read it
/// binds what was read, and once bound it says where it listens and how large
/// bodies may be.
pub proof fn server_listens_as_configured(
    config: &ServerConfig,
    address: String,
    start: Serving,
    parsed: String,
    bind: Serving,
    bound: String,
    accept: Serving,
    served: String,
    end: Serving,
)
    requires
        call_ensures(ServerConfig::address, (config,), address),
        call_ensures(serve, (config,), start),
        call_ensures(Serving::advance, (start, Ok(parsed)), bind),
        call_ensures(Serving::advance, (bind, Ok(bound)), accept),
        call_ensures(Serving::advance, (accept, Ok(served)), end),
    ensures
        start matches Serving::ParseAddress { address: asked, .. } && asked@ == address@,
        bind matches Serving::Bind { address: read, .. } && read@ == parsed@,
        accept matches Serving::Accept { announcement } && announcement@ == "listening on http://"@
            + parsed@ + " (max body "@ + decimal(config.max_body_mb as nat) + " MB)"@,
        end == Serving::Finished(Ok(())),
{
}

/// Whatever goes wrong ends the start with its cause: an address that cannot be
/// read is invalid input, one that cannot be bound is named, and both binding
/// and serving keep the kind of the error.
pub proof fn failed_start_keeps_its_cause(
    before: Serving,
    kind: ErrorKind,
    cause: String,
    next: Serving,
)
    requires
        call_ensures(Serving::advance, (before, Err((kind, cause))), next),
    ensures
        before is ParseAddress ==> {
            &&& next matches Serving::Finished(Err(error))
            &&& error.kind == ServeErrorKind::InvalidInput
            &&& error.message@ == cause@
        },
        before matches Serving::Bind { address, .. } ==> {
            &&& next matches Serving::Finished(Err(error))
            &&& error.kind == ServeErrorKind::Bind(kind)
            &&& error.message@ == "failed to bind "@ + address@
                + " (is the port already in use?): "@ + cause@
        },
        before is Accept ==> {
            &&& next matches Serving::Finished(Err(error))
            &&& error.kind == ServeErrorKind::Server(kind)
            &&& error.message@ == cause@
        },
        before is Finished ==> next == before,
{
}

/// A start that is over stays as it ended.
pub proof fn finished_start_stays(
    result: Result<(), ServeError>,
    answer: Result<String, (ErrorKind, String)>,
    next: Serving,
)
    requires
        call_ensures(Serving::advance, (Serving::Finished(result), answer), next),
    ensures
        next == Serving::Finished(result),
{
}

/// Each conversion is logged under its number: at the start with the size of the
/// request, at the end with the size of the document or with what went wrong.
pub proof fn conversion_is_logged(
    n: u64,
    size: usize,
    start: String,
    outcome: Outcome,
    end: String,
    level: Level,
)
    requires
        call_ensures(start_line, (n, size), start),
        call_ensures(end_line, (n, &outcome), end),
        call_ensures(end_level, (&outcome,), level),
    ensures
        start@ == "#"@ + decimal(n as nat) + " "@ + ("start: "@ + decimal(size as nat) + " bytes"@),
        end@ == "#"@ + decimal(n as nat) + " "@ + match outcome {
            Outcome::Pdf(pdf) => "done: "@ + decimal(pdf@.len()) + " bytes"@,
            Outcome::Failed(cause) => "failed: "@ + cause@,
            Outcome::Panicked(cause) => "panicked: "@ + cause@,
        },
        level is Info <==> outcome is Pdf,
        level is Warn <==> outcome is Failed,
        level is Error <==> outcome is Panicked,
{
}

} // verus!
