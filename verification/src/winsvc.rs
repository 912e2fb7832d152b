//! The Windows service: its life, its registration and its removal.
//!
//! What the Service Control Manager does is requested one action at a time;
//! each type here says which action is next, given how the last one went.

use crate::config::{views, ServeArgs, ServerConfig, ServiceArg};
use crate::server::Level;
use std::path::PathBuf;
use vstd::prelude::*;

verus! {

/// Name that the service is registered under.
pub const SERVICE_NAME: &'static str = "DxPdfService";

/// Name of the service that users see.
pub const SERVICE_DISPLAY_NAME: &'static str = "dxpdf DOCX to PDF converter";

/// Name of the log file, next to the executable, of a service without one of its own.
pub const SERVICE_LOG_FILE: &'static str = "dxpdf-service.log";

/// State of a service, as the manager knows it.
#[derive(Clone, Copy, Debug, PartialEq, Eq, Structural)]
pub enum ServiceState {
    Stopped,
    StartPending,
    StopPending,
    Running,
    ContinuePending,
    PausePending,
    Paused,
}

/// Exit code of a service.
#[derive(Clone, Copy, Debug, PartialEq, Eq, Structural)]
pub enum ExitCode {
    /// A system error code; zero is success.
    Win32(u32),
    /// A code that only this service gives a meaning.
    ServiceSpecific(u32),
}

/// How a service shares its process with others.
#[derive(Clone, Copy, Debug, PartialEq, Eq, Structural)]
pub enum ServiceType {
    OwnProcess,
    ShareProcess,
}

/// A report to the manager.
#[derive(Clone, Copy, Debug, PartialEq, Eq, Structural)]
pub struct ServiceStatus {
    pub service_type: ServiceType,
    pub current_state: ServiceState,
    pub accepts_stop: bool,
    pub exit_code: ExitCode,
    pub checkpoint: u32,
    pub wait_hint_ms: u64,
    pub process_id: Option<u32>,
}

/// What the service reports of itself: it has a process of its own and can be
/// told to stop.
pub open spec fn spec_status(current_state: ServiceState, exit_code: ExitCode) -> ServiceStatus {
    ServiceStatus {
        service_type: ServiceType::OwnProcess,
        current_state,
        accepts_stop: true,
        exit_code,
        checkpoint: 0,
        wait_hint_ms: 0,
        process_id: None,
    }
}

fn status(current_state: ServiceState, exit_code: ExitCode) -> (status: ServiceStatus)
    ensures
        status == spec_status(current_state, exit_code),
{
    ServiceStatus {
        service_type: ServiceType::OwnProcess,
        current_state,
        accepts_stop: true,
        exit_code,
        checkpoint: 0,
        wait_hint_ms: 0,
        process_id: None,
    }
}

/// A control that the manager sends to the running service.
#[derive(Clone, Copy, Debug, PartialEq, Eq, Structural)]
pub enum Control {
    Stop,
    Interrogate,
    Other,
}

/// Answer to a control.
#[derive(Clone, Copy, Debug, PartialEq, Eq, Structural)]
pub enum ControlAnswer {
    NoError,
    NotImplemented,
}

/// Decides what the controls sent to the service do.
pub struct ControlHandler {
    shutdown_pending: bool,
}

impl ControlHandler {
    /// The server has not been told to shut down yet.
    pub closed spec fn can_signal(self) -> bool {
        self.shutdown_pending
    }

    /// The handler that has become `next` by reacting to this control: it tells
    /// the server to shut down if it can and the control is a stop.
    pub open spec fn reacts(
        self,
        control: Control,
        reaction: (ControlAnswer, bool),
        next: ControlHandler,
    ) -> bool {
        &&& reaction.0 == if control == Control::Other {
            ControlAnswer::NotImplemented
        } else {
            ControlAnswer::NoError
        }
        &&& reaction.1 == (control == Control::Stop && self.can_signal())
        &&& next.can_signal() == (self.can_signal() && control != Control::Stop)
    }

    /// The handler of a service that has just started.
    pub fn new() -> (handler: ControlHandler)
        ensures
            handler.can_signal(),
    {
        ControlHandler { shutdown_pending: true }
    }

    /// Answers a control, and says whether the server is now told to shut down.
    pub fn handle(&mut self, control: Control) -> (reaction: (ControlAnswer, bool))
        ensures
            old(self).reacts(control, reaction, *final(self)),
    {
        match control {
            Control::Stop => {
                let signal: bool = self.shutdown_pending;
                self.shutdown_pending = false;
                (ControlAnswer::NoError, signal)
            },
            Control::Interrogate => (ControlAnswer::NoError, false),
            Control::Other => (ControlAnswer::NotImplemented, false),
        }
    }
}

/// `handlers` is a handler over time: it was sent these controls, one after the
/// other, and reacted to each as the next handler shows.
pub open spec fn is_handling(
    handlers: Seq<ControlHandler>,
    controls: Seq<Control>,
    reactions: Seq<(ControlAnswer, bool)>,
) -> bool {
    &&& handlers.len() == controls.len() + 1
    &&& reactions.len() == controls.len()
    &&& forall|i: int|
        #![trigger controls[i]]
        0 <= i < controls.len() ==> handlers[i].reacts(controls[i], reactions[i], handlers[i + 1])
}

proof fn signal_needs_no_earlier_stop(
    handlers: Seq<ControlHandler>,
    controls: Seq<Control>,
    reactions: Seq<(ControlAnswer, bool)>,
    n: int,
)
    requires
        is_handling(handlers, controls, reactions),
        0 <= n <= controls.len(),
    ensures
        handlers[n].can_signal() <==> handlers[0].can_signal() && !controls.take(n).contains(
            Control::Stop,
        ),
    decreases n,
{
    if n > 0 {
        signal_needs_no_earlier_stop(handlers, controls, reactions, n - 1);
        let control = controls[n - 1];
        assert(handlers[n - 1].reacts(control, reactions[n - 1], handlers[n - 1 + 1]));
        let earlier = controls.take(n - 1);
        assert(controls.take(n) =~= earlier.push(control));
        if earlier.contains(Control::Stop) {
            let i = choose|i: int| 0 <= i < earlier.len() && earlier[i] == Control::Stop;
            assert(controls.take(n)[i] == Control::Stop);
        }
        assert(controls.take(n)[n - 1] == control);
    }
}

/// However many controls arrive, the server is told to shut down at the first
/// stop, and never again.
pub proof fn shutdown_is_signalled_once(
    handlers: Seq<ControlHandler>,
    controls: Seq<Control>,
    reactions: Seq<(ControlAnswer, bool)>,
)
    requires
        is_handling(handlers, controls, reactions),
        handlers[0].can_signal(),
    ensures
        forall|i: int|
            0 <= i < controls.len() ==> ((#[trigger] reactions[i]).1 <==> controls[i]
                == Control::Stop && !controls.take(i).contains(Control::Stop)),
        forall|i: int, j: int|
            0 <= i < j < controls.len() ==> !((#[trigger] reactions[i]).1 && (
            #[trigger] reactions[j]).1),
        controls.contains(Control::Stop) ==> exists|i: int|
            0 <= i < controls.len() && (#[trigger] reactions[i]).1,
{
    assert forall|i: int| 0 <= i < controls.len() implies ((#[trigger] reactions[i]).1
        <==> controls[i] == Control::Stop && !controls.take(i).contains(Control::Stop)) by {
        signal_needs_no_earlier_stop(handlers, controls, reactions, i);
        assert(handlers[i].reacts(controls[i], reactions[i], handlers[i + 1]));
    }
    assert forall|i: int, j: int| 0 <= i < j < controls.len() implies !((
    #[trigger] reactions[i]).1 && (#[trigger] reactions[j]).1) by {
        if reactions[i].1 {
            assert(controls.take(j)[i] == Control::Stop);
        }
    }
    if controls.contains(Control::Stop) {
        let i = first_stop(controls);
        assert(reactions[i].1);
    }
}

proof fn first_stop(controls: Seq<Control>) -> (i: int)
    requires
        controls.contains(Control::Stop),
    ensures
        0 <= i < controls.len(),
        controls[i] == Control::Stop,
        !controls.take(i).contains(Control::Stop),
    decreases controls.len(),
{
    let i = choose|i: int| 0 <= i < controls.len() && controls[i] == Control::Stop;
    let earlier = controls.take(i);
    if earlier.contains(Control::Stop) {
        let j = first_stop(earlier);
        assert(earlier.take(j) =~= controls.take(j));
        j
    } else {
        i
    }
}

/// Where the run of the service stands: what is to be done next.
pub enum ServiceRun {
    /// Register the control handler under the service's name.
    Register { config: ServerConfig },
    /// Report that the service runs.
    ReportRunning { status: ServiceStatus, config: ServerConfig },
    /// Serve until told to shut down.
    Serve { config: ServerConfig },
    /// Log the complaint, if there is one, and report that the service has stopped.
    ReportStopped { status: ServiceStatus, complaint: Option<(Level, String)> },
    /// Nothing is left to do.
    Finished(Result<(), String>),
}

impl ServiceRun {
    /// `next` is where the run stands once `self` was done with this result.
    pub open spec fn leads_to(self, result: Result<(), String>, next: ServiceRun) -> bool {
        match (self, result) {
            (ServiceRun::Register { config }, Ok(_)) => next == ServiceRun::ReportRunning {
                status: spec_status(ServiceState::Running, ExitCode::Win32(0)),
                config,
            },
            (ServiceRun::ReportRunning { config, .. }, Ok(_)) => next == ServiceRun::Serve { config },
            (ServiceRun::Serve { .. }, Ok(_)) => next == (ServiceRun::ReportStopped {
                status: spec_status(ServiceState::Stopped, ExitCode::Win32(0)),
                complaint: None,
            }),
            (ServiceRun::Serve { .. }, Err(cause)) => {
                &&& next matches ServiceRun::ReportStopped { status, complaint }
                &&& status == spec_status(ServiceState::Stopped, ExitCode::ServiceSpecific(1))
                &&& complaint matches Some((level, text)) && level == Level::Error && text@
                    == "server error: "@ + cause@
            },
            (ServiceRun::ReportStopped { .. }, Ok(_)) => next == ServiceRun::Finished(Ok(())),
            (ServiceRun::Finished(_), _) => next == self,
            (_, Err(cause)) => next == ServiceRun::Finished(Err(cause)),
        }
    }

    /// Goes on after what was to be done next was done with this result.
    pub fn advance(self, result: Result<(), String>) -> (next: ServiceRun)
        ensures
            self.leads_to(result, next),
    {
        match self {
            ServiceRun::Register { config } => match result {
                Ok(_) => ServiceRun::ReportRunning {
                    status: status(ServiceState::Running, ExitCode::Win32(0)),
                    config,
                },
                Err(cause) => ServiceRun::Finished(Err(cause)),
            },
            ServiceRun::ReportRunning { status: _, config } => match result {
                Ok(_) => ServiceRun::Serve { config },
                Err(cause) => ServiceRun::Finished(Err(cause)),
            },
            ServiceRun::Serve { config: _ } => match result {
                Ok(_) => ServiceRun::ReportStopped {
                    status: status(ServiceState::Stopped, ExitCode::Win32(0)),
                    complaint: None,
                },
                Err(cause) => ServiceRun::ReportStopped {
                    status: status(ServiceState::Stopped, ExitCode::ServiceSpecific(1)),
                    complaint: Some(
                        (Level::Error, String::from_str("server error: ").concat(cause.as_str())),
                    ),
                },
            },
            ServiceRun::ReportStopped { status: _, complaint: _ } => match result {
                Ok(_) => ServiceRun::Finished(Ok(())),
                Err(cause) => ServiceRun::Finished(Err(cause)),
            },
            ServiceRun::Finished(outcome) => ServiceRun::Finished(outcome),
        }
    }
}

/// Starts the run of the service, on a machine with `cpus` CPUs, `None` if
/// their number cannot be learnt.
pub fn run(args: &ServeArgs, cpus: Option<usize>) -> (run: ServiceRun)
    ensures
        run matches ServiceRun::Register { config } && args.configures(cpus, config),
{
    ServiceRun::Register { config: args.config(cpus) }
}

/// What the log says of a run that has ended with this result.
pub fn failure_line(result: &Result<(), String>) -> (line: Option<(Level, String)>)
    ensures
        match *result {
            Ok(_) => line is None,
            Err(cause) => line matches Some((level, text)) && level == Level::Error && text@
                == "service failed: "@ + cause@,
        },
{
    match result {
        Ok(_) => None,
        Err(cause) => Some(
            (Level::Error, String::from_str("service failed: ").concat(cause.as_str())),
        ),
    }
}

/// The server runs only once `Running` was reported; once it ran, `Stopped` is
/// reported, with a failure code and a complaint exactly if the server failed.
pub proof fn serving_is_framed_by_reports(
    before: ServiceRun,
    result: Result<(), String>,
    next: ServiceRun,
)
    requires
        before.leads_to(result, next),
    ensures
        next is Serve ==> result is Ok && before is ReportRunning,
        next is ReportRunning ==> next->ReportRunning_status.current_state == ServiceState::Running,
        before is Serve <==> next is ReportStopped,
        next is ReportStopped ==> {
            &&& next->ReportStopped_status.current_state == ServiceState::Stopped
            &&& next->ReportStopped_status.exit_code == ExitCode::Win32(0) <==> result is Ok
            &&& next->complaint is Some <==> result is Err
        },
        before !is Finished ==> next.actions_left() < before.actions_left(),
{
}

impl ServiceRun {
    /// Bound on the actions that are still to come.
    pub open spec fn actions_left(self) -> nat {
        match self {
            ServiceRun::Register { .. } => 4,
            ServiceRun::ReportRunning { .. } => 3,
            ServiceRun::Serve { .. } => 2,
            ServiceRun::ReportStopped { .. } => 1,
            ServiceRun::Finished(_) => 0,
        }
    }
}

/// What a handle of the service manager is opened for.
#[derive(Clone, Copy, Debug, PartialEq, Eq, Structural)]
pub enum ManagerAccess {
    Connect,
    CreateService,
}

/// What a handle of a service is opened for.
#[derive(Clone, Copy, Debug, PartialEq, Eq, Structural)]
pub struct ServiceAccess {
    pub start: bool,
    pub stop: bool,
    pub delete: bool,
    pub query_status: bool,
}

/// When the system starts a service.
#[derive(Clone, Copy, Debug, PartialEq, Eq, Structural)]
pub enum StartType {
    AutoStart,
    OnDemand,
    Disabled,
}

/// What the system does if a service fails to start.
#[derive(Clone, Copy, Debug, PartialEq, Eq, Structural)]
pub enum ErrorControl {
    Ignore,
    Normal,
    Severe,
    Critical,
}

/// What the service is registered with. It runs as LocalSystem where no account
/// is named.
pub struct ServiceInfo {
    pub name: &'static str,
    pub display_name: &'static str,
    pub service_type: ServiceType,
    pub start_type: StartType,
    pub error_control: ErrorControl,
    pub executable_path: PathBuf,
    pub launch_arguments: Vec<ServiceArg>,
    /// Names of the services that have to run before this one.
    pub dependencies: Vec<String>,
    pub account_name: Option<String>,
    pub account_password: Option<String>,
}

/// How an action on the way to an installed service went.
pub enum InstallReply {
    Done,
    /// Where the running executable lies.
    Executable(PathBuf),
    Failed(String),
}

/// Where the installation stands: what is to be done next.
pub enum Installing {
    /// Open the service manager.
    OpenManager { access: ManagerAccess, launch_arguments: Vec<ServiceArg> },
    /// Find the running executable.
    LocateExecutable { launch_arguments: Vec<ServiceArg> },
    /// Register the service and open it.
    Create { info: ServiceInfo, rights: ServiceAccess },
    /// Start the service, without further arguments.
    Start,
    /// Nothing is left to do.
    Finished(Result<(), String>),
}

impl ServiceInfo {
    /// The registration of this service for that executable and command line:
    /// in a process of its own, started with the system, dependent on no other
    /// service, as LocalSystem.
    pub open spec fn registers(self, executable: PathBuf, arguments: Seq<ServiceArg>) -> bool {
        &&& self.name@ == SERVICE_NAME@
        &&& self.display_name@ == SERVICE_DISPLAY_NAME@
        &&& self.service_type == ServiceType::OwnProcess
        &&& self.start_type == StartType::AutoStart
        &&& self.error_control == ErrorControl::Normal
        &&& self.executable_path == executable
        &&& self.launch_arguments@ == arguments
        &&& self.dependencies@.len() == 0
        &&& self.account_name is None
        &&& self.account_password is None
    }
}

impl Installing {
    /// `next` is where the installation stands after this reply. A reply that
    /// does not answer the action that is next changes nothing.
    pub open spec fn leads_to(self, reply: InstallReply, next: Installing) -> bool {
        match (self, reply) {
            (Installing::Finished(_), _) => next == self,
            (_, InstallReply::Failed(cause)) => next == Installing::Finished(Err(cause)),
            (Installing::OpenManager { launch_arguments, .. }, InstallReply::Done) => next
                == Installing::LocateExecutable { launch_arguments },
            (
                Installing::LocateExecutable { launch_arguments },
                InstallReply::Executable(executable),
            ) => {
                &&& next matches Installing::Create { info, rights }
                &&& info.registers(executable, launch_arguments@)
                &&& rights == ServiceAccess {
                    start: true,
                    stop: false,
                    delete: false,
                    query_status: true,
                }
            },
            (Installing::Create { .. }, InstallReply::Done) => next == Installing::Start,
            (Installing::Start, InstallReply::Done) => next == Installing::Finished(Ok(())),
            _ => next == self,
        }
    }

    /// Goes on after this reply.
    pub fn advance(self, reply: InstallReply) -> (next: Installing)
        ensures
            self.leads_to(reply, next),
    {
        match self {
            Installing::OpenManager { access, launch_arguments } => match reply {
                InstallReply::Done => Installing::LocateExecutable { launch_arguments },
                InstallReply::Failed(cause) => Installing::Finished(Err(cause)),
                InstallReply::Executable(_) => Installing::OpenManager { access, launch_arguments },
            },
            Installing::LocateExecutable { launch_arguments } => match reply {
                InstallReply::Executable(executable_path) => Installing::Create {
                    info: ServiceInfo {
                        name: SERVICE_NAME,
                        display_name: SERVICE_DISPLAY_NAME,
                        service_type: ServiceType::OwnProcess,
                        start_type: StartType::AutoStart,
                        error_control: ErrorControl::Normal,
                        executable_path,
                        launch_arguments,
                        dependencies: Vec::new(),
                        account_name: None,
                        account_password: None,
                    },
                    rights: ServiceAccess {
                        start: true,
                        stop: false,
                        delete: false,
                        query_status: true,
                    },
                },
                InstallReply::Failed(cause) => Installing::Finished(Err(cause)),
                InstallReply::Done => Installing::LocateExecutable { launch_arguments },
            },
            Installing::Create { info, rights } => match reply {
                InstallReply::Done => Installing::Start,
                InstallReply::Failed(cause) => Installing::Finished(Err(cause)),
                InstallReply::Executable(_) => Installing::Create { info, rights },
            },
            Installing::Start => match reply {
                InstallReply::Done => Installing::Finished(Ok(())),
                InstallReply::Failed(cause) => Installing::Finished(Err(cause)),
                InstallReply::Executable(_) => Installing::Start,
            },
            Installing::Finished(result) => Installing::Finished(result),
        }
    }
}

/// Starts the installation: registers the service (auto-start, LocalSystem)
/// with the given settings frozen into its command line, and starts it.
pub fn install(args: &ServeArgs) -> (installing: Installing)
    ensures
        installing matches Installing::OpenManager { access, launch_arguments } && access
            == ManagerAccess::CreateService && views(launch_arguments@) == args.service_arguments(),
{
    Installing::OpenManager {
        access: ManagerAccess::CreateService,
        launch_arguments: args.to_service_args(),
    }
}

impl Installing {
    /// This reply answers the action that is next.
    pub open spec fn is_answered_by(self, reply: InstallReply) -> bool {
        match self {
            Installing::LocateExecutable { .. } => !(reply is Done),
            Installing::Finished(_) => false,
            _ => !(reply is Executable),
        }
    }

    /// Bound on the actions that are still to come.
    pub open spec fn actions_left(self) -> nat {
        match self {
            Installing::OpenManager { .. } => 4,
            Installing::LocateExecutable { .. } => 3,
            Installing::Create { .. } => 2,
            Installing::Start => 1,
            Installing::Finished(_) => 0,
        }
    }
}

/// The installation comes to an end; the service is started only once it was
/// registered, and only starting it is a success.
pub proof fn installation_is_orderly(before: Installing, reply: InstallReply, next: Installing)
    requires
        before.leads_to(reply, next),
        before.is_answered_by(reply),
    ensures
        next.actions_left() < before.actions_left(),
        next is Start ==> before is Create && reply is Done,
        next == Installing::Finished(Ok(())) <==> before is Start && reply is Done,
        reply is Failed ==> next is Finished,
{
}

/// Whatever the executable, the service is registered with the command line
/// of the settings that it was installed with.
pub proof fn installation_freezes_settings(
    args: ServeArgs,
    started: Installing,
    located: Installing,
    executable: PathBuf,
    created: Installing,
)
    requires
        started matches Installing::OpenManager { access, launch_arguments } && views(launch_arguments@)
            == args.service_arguments(),
        started.leads_to(InstallReply::Done, located),
        located.leads_to(InstallReply::Executable(executable), created),
    ensures
        created matches Installing::Create { info, rights } && info.executable_path == executable
            && views(info.launch_arguments@) == args.service_arguments(),
{
}

/// How an action on the way to a removed service went.
pub enum UninstallReply {
    Done,
    /// State of the service.
    Status(ServiceState),
    Failed(String),
}

/// How often a service that was told to stop is asked whether it has.
pub const STOP_POLLS: u32 = 20;

/// Pause between two such questions.
pub const STOP_POLL_PAUSE_MS: u64 = 250;

/// Where the removal stands: what is to be done next.
pub enum Uninstalling {
    /// Open the service manager.
    OpenManager { access: ManagerAccess },
    /// Open the service of that name.
    OpenService { name: &'static str, rights: ServiceAccess },
    /// Ask for the state of the service.
    Query,
    /// Tell the service to stop; it is removed even if that fails.
    Stop,
    /// Ask whether the service has stopped; `left` questions remain, this one included.
    Poll { left: u32 },
    /// Give the server a moment to release the port; `left` questions remain.
    Pause { milliseconds: u64, left: u32 },
    /// Delete the registration.
    Delete,
    /// Nothing is left to do.
    Finished(Result<(), String>),
}

impl Uninstalling {
    /// `next` is where the removal stands after this reply. A reply that does
    /// not answer the action that is next changes nothing.
    pub open spec fn leads_to(self, reply: UninstallReply, next: Uninstalling) -> bool {
        match (self, reply) {
            (Uninstalling::OpenManager { .. }, UninstallReply::Done) => {
                &&& next matches Uninstalling::OpenService { name, rights }
                &&& name@ == SERVICE_NAME@
                &&& rights == ServiceAccess {
                    start: false,
                    stop: true,
                    delete: true,
                    query_status: true,
                }
            },
            (Uninstalling::OpenService { .. }, UninstallReply::Done) => next == Uninstalling::Query,
            (Uninstalling::Query, UninstallReply::Status(state)) => next == if state
                == ServiceState::Stopped {
                Uninstalling::Delete
            } else {
                Uninstalling::Stop
            },
            (Uninstalling::Stop, UninstallReply::Done) => next == Uninstalling::Poll {
                left: STOP_POLLS,
            },
            (Uninstalling::Stop, UninstallReply::Failed(_)) => next == Uninstalling::Poll {
                left: STOP_POLLS,
            },
            (Uninstalling::Poll { left }, UninstallReply::Status(state)) => next == if state
                == ServiceState::Stopped {
                Uninstalling::Delete
            } else {
                Uninstalling::Pause {
                    milliseconds: STOP_POLL_PAUSE_MS,
                    left: if left == 0 {
                        0
                    } else {
                        (left - 1) as u32
                    },
                }
            },
            (Uninstalling::Pause { left, .. }, UninstallReply::Done) => next == if left == 0 {
                Uninstalling::Delete
            } else {
                Uninstalling::Poll { left }
            },
            (Uninstalling::Delete, UninstallReply::Done) => next == Uninstalling::Finished(Ok(())),
            (Uninstalling::Finished(_), _) => next == self,
            (Uninstalling::Pause { .. }, _) => next == self,
            (_, UninstallReply::Failed(cause)) => next == Uninstalling::Finished(Err(cause)),
            _ => next == self,
        }
    }

    /// Goes on after this reply.
    pub fn advance(self, reply: UninstallReply) -> (next: Uninstalling)
        ensures
            self.leads_to(reply, next),
    {
        match self {
            Uninstalling::OpenManager { access } => match reply {
                UninstallReply::Done => Uninstalling::OpenService {
                    name: SERVICE_NAME,
                    rights: ServiceAccess {
                        start: false,
                        stop: true,
                        delete: true,
                        query_status: true,
                    },
                },
                UninstallReply::Failed(cause) => Uninstalling::Finished(Err(cause)),
                UninstallReply::Status(_) => Uninstalling::OpenManager { access },
            },
            Uninstalling::OpenService { name, rights } => match reply {
                UninstallReply::Done => Uninstalling::Query,
                UninstallReply::Failed(cause) => Uninstalling::Finished(Err(cause)),
                UninstallReply::Status(_) => Uninstalling::OpenService { name, rights },
            },
            Uninstalling::Query => match reply {
                UninstallReply::Status(state) => if state == ServiceState::Stopped {
                    Uninstalling::Delete
                } else {
                    Uninstalling::Stop
                },
                UninstallReply::Failed(cause) => Uninstalling::Finished(Err(cause)),
                UninstallReply::Done => Uninstalling::Query,
            },
            Uninstalling::Stop => match reply {
                UninstallReply::Done => Uninstalling::Poll { left: STOP_POLLS },
                UninstallReply::Failed(_) => Uninstalling::Poll { left: STOP_POLLS },
                UninstallReply::Status(_) => Uninstalling::Stop,
            },
            Uninstalling::Poll { left } => match reply {
                UninstallReply::Status(state) => if state == ServiceState::Stopped {
                    Uninstalling::Delete
                } else {
                    Uninstalling::Pause {
                        milliseconds: STOP_POLL_PAUSE_MS,
                        left: if left == 0 {
                            0
                        } else {
                            left - 1
                        },
                    }
                },
                UninstallReply::Failed(cause) => Uninstalling::Finished(Err(cause)),
                UninstallReply::Done => Uninstalling::Poll { left },
            },
            Uninstalling::Pause { milliseconds, left } => match reply {
                UninstallReply::Done => if left == 0 {
                    Uninstalling::Delete
                } else {
                    Uninstalling::Poll { left }
                },
                _ => Uninstalling::Pause { milliseconds, left },
            },
            Uninstalling::Delete => match reply {
                UninstallReply::Done => Uninstalling::Finished(Ok(())),
                UninstallReply::Failed(cause) => Uninstalling::Finished(Err(cause)),
                UninstallReply::Status(_) => Uninstalling::Delete,
            },
            Uninstalling::Finished(result) => Uninstalling::Finished(result),
        }
    }

    /// This reply answers the action that is next.
    pub open spec fn is_answered_by(self, reply: UninstallReply) -> bool {
        match self {
            Uninstalling::Query | Uninstalling::Poll { .. } => !(reply is Done),
            Uninstalling::Pause { .. } => reply is Done,
            Uninstalling::Finished(_) => false,
            _ => !(reply is Status),
        }
    }

    /// Bound on the actions that are still to come.
    pub open spec fn actions_left(self) -> nat {
        match self {
            Uninstalling::OpenManager { .. } => (2 * STOP_POLLS + 5) as nat,
            Uninstalling::OpenService { .. } => (2 * STOP_POLLS + 4) as nat,
            Uninstalling::Query => (2 * STOP_POLLS + 3) as nat,
            Uninstalling::Stop => (2 * STOP_POLLS + 2) as nat,
            Uninstalling::Poll { left } => if left == 0 {
                3
            } else {
                (2 * left + 1) as nat
            },
            Uninstalling::Pause { left, .. } => (2 * left + 2) as nat,
            Uninstalling::Delete => 1,
            Uninstalling::Finished(_) => 0,
        }
    }

    /// Bound on the pauses that are still to come.
    pub open spec fn pauses_left(self) -> nat {
        match self {
            Uninstalling::Poll { left } => if left == 0 {
                1
            } else {
                left as nat
            },
            Uninstalling::Pause { left, .. } => left as nat + 1,
            Uninstalling::Delete | Uninstalling::Finished(_) => 0,
            _ => STOP_POLLS as nat,
        }
    }
}

/// Starts the removal: stops the service if it runs, and deletes its registration.
pub fn uninstall() -> (uninstalling: Uninstalling)
    ensures
        uninstalling == (Uninstalling::OpenManager { access: ManagerAccess::Connect }),
{
    Uninstalling::OpenManager { access: ManagerAccess::Connect }
}

/// `states` is a removal that went on by these replies, each of which answered
/// the action that was next.
pub open spec fn is_removal(states: Seq<Uninstalling>, replies: Seq<UninstallReply>) -> bool {
    &&& states.len() == replies.len() + 1
    &&& states[0] == (Uninstalling::OpenManager { access: ManagerAccess::Connect })
    &&& forall|i: int|
        #![trigger replies[i]]
        0 <= i < replies.len() ==> states[i].is_answered_by(replies[i]) && states[i].leads_to(
            replies[i],
            states[i + 1],
        )
}

/// Pauses among the first `n` states.
pub open spec fn pauses(states: Seq<Uninstalling>, n: int) -> nat
    decreases n,
{
    if n <= 0 {
        0
    } else {
        pauses(states, n - 1) + if states[n - 1] is Pause {
            1nat
        } else {
            0nat
        }
    }
}

proof fn removal_progress(states: Seq<Uninstalling>, replies: Seq<UninstallReply>, n: int)
    requires
        is_removal(states, replies),
        0 <= n <= replies.len(),
    ensures
        n + states[n].actions_left() <= 2 * STOP_POLLS + 5,
        pauses(states, n) + states[n].pauses_left() <= STOP_POLLS,
    decreases n,
{
    if n > 0 {
        removal_progress(states, replies, n - 1);
        let reply = replies[n - 1];
        assert(states[n - 1].is_answered_by(reply));
        assert(states[n - 1].leads_to(reply, states[n - 1 + 1]));
    }
}

/// A removal ends after a bounded number of actions, having paused at most as
/// often as the service is asked whether it has stopped.
pub proof fn removal_ends(states: Seq<Uninstalling>, replies: Seq<UninstallReply>)
    requires
        is_removal(states, replies),
    ensures
        replies.len() <= 2 * STOP_POLLS + 5,
        pauses(states, states.len() as int) <= STOP_POLLS,
{
    removal_progress(states, replies, replies.len() as int);
}

proof fn removal_counts_pauses(states: Seq<Uninstalling>, replies: Seq<UninstallReply>, n: int)
    requires
        is_removal(states, replies),
        0 <= n <= replies.len(),
    ensures
        match states[n] {
            Uninstalling::Poll { left } => left > 0 && pauses(states, n) == STOP_POLLS - left,
            Uninstalling::Pause { left, .. } => pauses(states, n) == STOP_POLLS - left - 1,
            Uninstalling::Delete | Uninstalling::Finished(_) => true,
            _ => pauses(states, n) == 0,
        },
    decreases n,
{
    if n > 0 {
        removal_counts_pauses(states, replies, n - 1);
        let reply = replies[n - 1];
        assert(states[n - 1].is_answered_by(reply));
        assert(states[n - 1].leads_to(reply, states[n - 1 + 1]));
    }
}

/// The registration is deleted only once the service was seen stopped, or was
/// given every pause there is to stop; a failure to stop it prevents nothing.
pub proof fn deletion_follows_stop_or_patience(
    states: Seq<Uninstalling>,
    replies: Seq<UninstallReply>,
    n: int,
)
    requires
        is_removal(states, replies),
        0 < n <= replies.len(),
        states[n] is Delete,
    ensures
        replies[n - 1] == UninstallReply::Status(ServiceState::Stopped) || pauses(states, n)
            == STOP_POLLS,
{
    removal_counts_pauses(states, replies, n - 1);
    let reply = replies[n - 1];
    assert(states[n - 1].is_answered_by(reply));
    assert(states[n - 1].leads_to(reply, states[n - 1 + 1]));
}

/// A removal succeeds only by deleting the registration.
pub proof fn removal_succeeds_by_deletion(
    before: Uninstalling,
    reply: UninstallReply,
    next: Uninstalling,
)
    requires
        before.leads_to(reply, next),
        before !is Finished,
        next == Uninstalling::Finished(Ok(())),
    ensures
        before is Delete,
        reply is Done,
{
}

/// The settings that the service was started with reach the server unchanged.
pub proof fn settings_reach_the_service(
    args: &ServeArgs,
    cpus: Option<usize>,
    wanted: ServerConfig,
    start: ServiceRun,
    reported: ServiceRun,
    serving: ServiceRun,
)
    requires
        call_ensures(ServeArgs::config, (args, cpus), wanted),
        call_ensures(run, (args, cpus), start),
        call_ensures(ServiceRun::advance, (start, Ok(())), reported),
        call_ensures(ServiceRun::advance, (reported, Ok(())), serving),
    ensures
        start is Register,
        reported is ReportRunning,
        serving matches ServiceRun::Serve { config } && {
            &&& args.configures(cpus, config)
            &&& config.host@ == args.host@
            &&& config.port == args.port
            &&& config.max_body_mb == wanted.max_body_mb
            &&& config.concurrency == wanted.concurrency
        },
{
}

/// The service reports itself running before it serves and stopped afterwards,
/// as a service in a process of its own that can be told to stop; the exit code
/// and the log tell whether the server failed.
pub proof fn service_reports_itself(
    config: ServerConfig,
    running: ServiceRun,
    result: Result<(), String>,
    stopped: ServiceRun,
    end: ServiceRun,
)
    requires
        call_ensures(ServiceRun::advance, (ServiceRun::Register { config }, Ok(())), running),
        call_ensures(ServiceRun::advance, (ServiceRun::Serve { config }, result), stopped),
        call_ensures(ServiceRun::advance, (stopped, Ok(())), end),
    ensures
        running matches ServiceRun::ReportRunning { status, config: kept } && {
            &&& kept == config
            &&& status.current_state is Running
            &&& status.service_type is OwnProcess
            &&& status.accepts_stop
            &&& status.exit_code == ExitCode::Win32(0)
            &&& status.checkpoint == 0 && status.wait_hint_ms == 0 && status.process_id is None
        },
        stopped matches ServiceRun::ReportStopped { status, complaint } && {
            &&& status.current_state is Stopped
            &&& status.service_type is OwnProcess
            &&& status.accepts_stop
            &&& status.exit_code == if result is Ok {
                ExitCode::Win32(0)
            } else {
                ExitCode::ServiceSpecific(1)
            }
            &&& status.checkpoint == 0 && status.wait_hint_ms == 0 && status.process_id is None
            &&& result is Ok ==> complaint is None
            &&& result matches Err(cause) ==> (complaint matches Some((level, text)) && level is Error
                && text@ == "server error: "@ + cause@)
        },
        end == ServiceRun::Finished(Ok(())),
{
}

/// A service that cannot register or report ends with that cause, and an ended
/// run stays as it ended.
pub proof fn refused_service_ends(
    before: ServiceRun,
    cause: String,
    next: ServiceRun,
    result: Result<(), String>,
    later: ServiceRun,
    line: Option<(Level, String)>,
)
    requires
        !(before is Serve || before is Finished),
        call_ensures(ServiceRun::advance, (before, Err(cause)), next),
        call_ensures(ServiceRun::advance, (next, result), later),
        call_ensures(failure_line, (&Err(cause),), line),
    ensures
        next == ServiceRun::Finished(Err(cause)),
        later == next,
        line matches Some((level, text)) && level is Error && text@ == "service failed: "@ + cause@,
{
}

/// A handler that has just been made tells the server to shut down at the first
/// stop and never again; stops and inquiries are acknowledged, all other controls
/// are not implemented.
pub proof fn controls_are_answered(
    handlers: Seq<ControlHandler>,
    controls: Seq<Control>,
    reactions: Seq<(ControlAnswer, bool)>,
)
    requires
        is_handling(handlers, controls, reactions),
        call_ensures(ControlHandler::new, (), handlers[0]),
    ensures
        forall|i: int|
            0 <= i < controls.len() ==> {
                &&& (#[trigger] reactions[i]).0 is NotImplemented <==> controls[i] is Other
                &&& reactions[i].1 <==> controls[i] is Stop && forall|j: int|
                    0 <= j < i ==> !(#[trigger] controls[j] is Stop)
            },
{
    shutdown_is_signalled_once(handlers, controls, reactions);
    assert forall|i: int| 0 <= i < controls.len() implies {
        &&& (#[trigger] reactions[i]).0 is NotImplemented <==> controls[i] is Other
        &&& reactions[i].1 <==> controls[i] is Stop && forall|j: int|
            0 <= j < i ==> !(#[trigger] controls[j] is Stop)
    } by {
        assert(handlers[i].reacts(controls[i], reactions[i], handlers[i + 1]));
        let earlier = controls.take(i);
        if earlier.contains(Control::Stop) {
            let j = choose|j: int| 0 <= j < earlier.len() && earlier[j] == Control::Stop;
            assert(controls[j] is Stop);
        } else {
            assert forall|j: int| 0 <= j < i implies !(#[trigger] controls[j] is Stop) by {
                assert(earlier[j] == controls[j]);
            }
        }
    }
}

/// An installation registers the service under its name, for the executable that
/// runs, with the settings frozen into its command line, to be started with the
/// system in a process of its own; then it starts the service.
pub proof fn installation_registers_the_service(
    args: &ServeArgs,
    line: Vec<ServiceArg>,
    opening: Installing,
    locating: Installing,
    executable: PathBuf,
    creating: Installing,
    starting: Installing,
    end: Installing,
)
    requires
        call_ensures(ServeArgs::to_service_args, (args,), line),
        call_ensures(install, (args,), opening),
        call_ensures(Installing::advance, (opening, InstallReply::Done), locating),
        call_ensures(
            Installing::advance,
            (locating, InstallReply::Executable(executable)),
            creating,
        ),
        call_ensures(Installing::advance, (creating, InstallReply::Done), starting),
        call_ensures(Installing::advance, (starting, InstallReply::Done), end),
    ensures
        opening matches Installing::OpenManager { access, .. } && access is CreateService,
        locating is LocateExecutable,
        creating matches Installing::Create { info, rights } && {
            &&& info.name@ == "DxPdfService"@
            &&& info.display_name@ == "dxpdf DOCX to PDF converter"@
            &&& info.service_type is OwnProcess
            &&& info.start_type is AutoStart
            &&& info.error_control is Normal
            &&& info.executable_path == executable
            &&& views(info.launch_arguments@) == views(line@)
            &&& info.dependencies@.len() == 0
            &&& info.account_name is None
            &&& info.account_password is None
            &&& rights.start && rights.query_status && !rights.stop && !rights.delete
        },
        starting is Start,
        end == Installing::Finished(Ok(())),
{
}

/// Whatever fails ends the installation with that cause.
pub proof fn failed_installation_ends(before: Installing, cause: String, next: Installing)
    requires
        call_ensures(Installing::advance, (before, InstallReply::Failed(cause)), next),
    ensures
        before !is Finished ==> next == Installing::Finished(Err(cause)),
        before is Finished ==> next == before,
{
}

/// A removal opens the service by its name, asks for its state, and deletes it at
/// once if it is stopped; else it is told to stop, and whether or not it could
/// be told, it is asked up to twenty times, with a quarter of a second after each
/// question, before it is deleted.
pub proof fn removal_stops_then_deletes(
    before: Uninstalling,
    reply: UninstallReply,
    next: Uninstalling,
)
    requires
        call_ensures(Uninstalling::advance, (before, reply), next),
    ensures
        before is OpenManager && reply is Done ==> (next matches Uninstalling::OpenService {
            name,
            rights,
        } && name@ == "DxPdfService"@ && rights.stop && rights.delete && rights.query_status
            && !rights.start),
        before is OpenService && reply is Done ==> next is Query,
        reply matches UninstallReply::Status(state) ==> {
            &&& before is Query && state is Stopped ==> next is Delete
            &&& before is Query && !(state is Stopped) ==> next is Stop
            &&& before is Poll && state is Stopped ==> next is Delete
            &&& before matches Uninstalling::Poll { left } ==> (!(state is Stopped) && left > 0
                ==> next == (Uninstalling::Pause { milliseconds: 250, left: (left - 1) as u32 }))
        },
        before is Stop && !(reply is Status) ==> next == (Uninstalling::Poll { left: 20 }),
        before matches Uninstalling::Pause { left, .. } ==> (reply is Done ==> next == if left > 0 {
            Uninstalling::Poll { left }
        } else {
            Uninstalling::Delete
        }),
        before is Delete && reply is Done ==> next == Uninstalling::Finished(Ok(())),
        reply matches UninstallReply::Failed(cause) ==> (!(before is Stop || before is Pause
            || before is Finished) ==> next == Uninstalling::Finished(Err(cause))),
        before is Finished ==> next == before,
{
}

/// A removal starts by connecting to the service manager.
pub proof fn removal_connects_first(start: Uninstalling)
    requires
        call_ensures(uninstall, (), start),
    ensures
        start == (Uninstalling::OpenManager { access: ManagerAccess::Connect }),
{
}

/// A removal takes at most 45 actions, 20 of them pauses, and the registration is
/// deleted only once the service was seen stopped or after all 20 pauses.
pub proof fn removal_is_patient(states: Seq<Uninstalling>, replies: Seq<UninstallReply>)
    requires
        states.len() == replies.len() + 1,
        call_ensures(uninstall, (), states[0]),
        forall|i: int|
            #![trigger replies[i]]
            0 <= i < replies.len() ==> states[i].is_answered_by(replies[i]) && call_ensures(
                Uninstalling::advance,
                (states[i], replies[i]),
                states[i + 1],
            ),
    ensures
        replies.len() <= 45,
        pauses(states, states.len() as int) <= 20,
        forall|n: int|
            #![trigger states[n]]
            0 < n <= replies.len() && states[n] is Delete ==> replies[n - 1]
                == UninstallReply::Status(ServiceState::Stopped) || pauses(states, n) == 20,
{
    assert forall|i: int|
        #![trigger replies[i]]
        0 <= i < replies.len() implies states[i].is_answered_by(replies[i]) && states[i].leads_to(
        replies[i],
        states[i + 1],
    ) by {
        assert(call_ensures(Uninstalling::advance, (states[i], replies[i]), states[i + 1]));
    }
    assert(is_removal(states, replies));
    removal_ends(states, replies);
    assert forall|n: int|
        #![trigger states[n]]
        0 < n <= replies.len() && states[n] is Delete implies replies[n - 1]
        == UninstallReply::Status(ServiceState::Stopped) || pauses(states, n) == 20 by {
        deletion_follows_stop_or_patience(states, replies, n);
    }
}

/// A reply that does not answer what was to be done next changes nothing.
pub proof fn stray_replies_change_nothing(
    installing: Installing,
    install_reply: InstallReply,
    installing_next: Installing,
    removing: Uninstalling,
    removal_reply: UninstallReply,
    removing_next: Uninstalling,
)
    requires
        call_ensures(Installing::advance, (installing, install_reply), installing_next),
        call_ensures(Uninstalling::advance, (removing, removal_reply), removing_next),
    ensures
        install_reply is Done && installing is LocateExecutable ==> installing_next == installing,
        install_reply is Executable && !(installing is LocateExecutable) ==> installing_next
            == installing,
        removal_reply is Done && (removing is Query || removing is Poll) ==> removing_next == removing,
        removal_reply is Status && !(removing is Query || removing is Poll) ==> removing_next
            == removing,
        removal_reply is Failed && removing is Pause ==> removing_next == removing,
{
}

/// The service, and the log that it keeps beside its executable, have the names
/// that its users know.
pub proof fn names_are_documented()
    ensures
        SERVICE_NAME@ == "DxPdfService"@,
        SERVICE_DISPLAY_NAME@ == "dxpdf DOCX to PDF converter"@,
        SERVICE_LOG_FILE@ == "dxpdf-service.log"@,
{
}

} // verus!
