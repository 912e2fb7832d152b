//! The subcommands: which of them run where, and how they end.

use crate::config::ServeArgs;
use crate::text::{decimal, decimal_string};
use crate::winsvc::SERVICE_NAME;
use vstd::prelude::*;

verus! {

/// A subcommand of the program.
pub enum Command {
    /// Run the HTTP server in the foreground.
    Run(ServeArgs),
    /// Entry point used by the Windows Service Control Manager (internal).
    Service(ServeArgs),
    /// Install and start the Windows service with the given settings.
    Install(ServeArgs),
    /// Stop and remove the Windows service.
    Uninstall,
}

/// What the program does for a subcommand.
pub enum Plan {
    /// Run the HTTP server until Ctrl+C.
    Serve(ServeArgs),
    /// Hand over to the service dispatcher.
    Dispatch(ServeArgs),
    /// Install the service.
    Install(ServeArgs),
    /// Remove the service.
    Uninstall,
    /// Say why not on the error stream, and fail.
    Refuse(String),
}

/// `plan` is what the program does for `command`. Everything but the foreground
/// server needs Windows.
pub open spec fn plans(command: Command, on_windows: bool, plan: Plan) -> bool {
    match command {
        Command::Run(args) => plan == Plan::Serve(args),
        Command::Service(args) => if on_windows {
            plan == Plan::Dispatch(args)
        } else {
            plan matches Plan::Refuse(reason) && reason@
                == "`service` is only available on Windows; use `run`"@
        },
        Command::Install(args) => if on_windows {
            plan == Plan::Install(args)
        } else {
            plan matches Plan::Refuse(reason) && reason@ == "`install` is only available on Windows"@
        },
        Command::Uninstall => if on_windows {
            plan == Plan::Uninstall
        } else {
            plan matches Plan::Refuse(reason) && reason@
                == "`uninstall` is only available on Windows"@
        },
    }
}

/// Decides what to do for a subcommand.
pub fn plan(command: Command, on_windows: bool) -> (plan: Plan)
    ensures
        plans(command, on_windows, plan),
{
    match command {
        Command::Run(args) => Plan::Serve(args),
        Command::Service(args) => if on_windows {
            Plan::Dispatch(args)
        } else {
            Plan::Refuse(String::from_str("`service` is only available on Windows; use `run`"))
        },
        Command::Install(args) => if on_windows {
            Plan::Install(args)
        } else {
            Plan::Refuse(String::from_str("`install` is only available on Windows"))
        },
        Command::Uninstall => if on_windows {
            Plan::Uninstall
        } else {
            Plan::Refuse(String::from_str("`uninstall` is only available on Windows"))
        },
    }
}

/// Something that the program did and that has ended.
#[derive(Clone, Copy, Debug, PartialEq, Eq, Structural)]
pub enum Task {
    Serve,
    Dispatch,
    /// Installed a service that listens on this port.
    Install { port: u16 },
    Uninstall,
}

/// Where a message goes.
#[derive(Clone, Copy, Debug, PartialEq, Eq, Structural)]
pub enum Channel {
    Output,
    Errors,
    Log,
}

/// How the program ends: with a message or without, and with an exit code.
pub struct Ending {
    pub message: Option<(Channel, String)>,
    pub exit_code: i32,
}

impl Ending {
    pub open spec fn says(self, channel: Channel, text: Seq<char>, exit_code: i32) -> bool {
        &&& self.message matches Some(message) && message.0 == channel && message.1@ == text
        &&& self.exit_code == exit_code
    }
}

/// `ending` is how the program ends once `task` had this result.
pub open spec fn ends(task: Task, result: Result<(), String>, ending: Ending) -> bool {
    match (task, result) {
        (Task::Serve, Ok(_)) => ending.message is None && ending.exit_code == 0,
        (Task::Dispatch, Ok(_)) => ending.message is None && ending.exit_code == 0,
        (Task::Install { port }, Ok(_)) => ending.says(
            Channel::Output,
            "service `"@ + SERVICE_NAME@ + "` installed and started (port "@ + decimal(port as nat)
                + ")"@,
            0,
        ),
        (Task::Uninstall, Ok(_)) => ending.says(
            Channel::Output,
            "service `"@ + SERVICE_NAME@ + "` removed"@,
            0,
        ),
        (Task::Serve, Err(cause)) => ending.says(Channel::Errors, "server error: "@ + cause@, 1),
        (Task::Dispatch, Err(cause)) => ending.says(
            Channel::Log,
            "service dispatcher failed: "@ + cause@,
            1,
        ),
        (Task::Install { .. }, Err(cause)) => ending.says(
            Channel::Errors,
            "install failed: "@ + cause@,
            1,
        ),
        (Task::Uninstall, Err(cause)) => ending.says(
            Channel::Errors,
            "uninstall failed: "@ + cause@,
            1,
        ),
    }
}

/// Decides how the program ends once `task` had this result.
pub fn conclude(task: Task, result: Result<(), String>) -> (ending: Ending)
    ensures
        ends(task, result, ending),
{
    match result {
        Ok(_) => {
            let message: Option<(Channel, String)> = match task {
                Task::Serve => None,
                Task::Dispatch => None,
                Task::Install { port } => {
                    let port: String = decimal_string(port as u64);
                    Some(
                        (
                            Channel::Output,
                            String::from_str("service `").concat(SERVICE_NAME).concat(
                                "` installed and started (port ",
                            ).concat(port.as_str()).concat(")"),
                        ),
                    )
                },
                Task::Uninstall => Some(
                    (
                        Channel::Output,
                        String::from_str("service `").concat(SERVICE_NAME).concat("` removed"),
                    ),
                ),
            };
            Ending { message, exit_code: 0 }
        },
        Err(cause) => {
            let message: (Channel, String) = match task {
                Task::Serve => (
                    Channel::Errors,
                    String::from_str("server error: ").concat(cause.as_str()),
                ),
                Task::Dispatch => (
                    Channel::Log,
                    String::from_str("service dispatcher failed: ").concat(cause.as_str()),
                ),
                Task::Install { port: _ } => (
                    Channel::Errors,
                    String::from_str("install failed: ").concat(cause.as_str()),
                ),
                Task::Uninstall => (
                    Channel::Errors,
                    String::from_str("uninstall failed: ").concat(cause.as_str()),
                ),
            };
            Ending { message: Some(message), exit_code: 1 }
        },
    }
}

/// The program fails exactly if what it was asked to do failed, and never silently.
pub proof fn failure_is_reported(task: Task, result: Result<(), String>, ending: Ending)
    requires
        ends(task, result, ending),
    ensures
        ending.exit_code == 0 <==> result is Ok,
        result is Err ==> ending.message is Some,
{
}

/// Away from Windows only the foreground server is available.
pub proof fn only_run_off_windows(command: Command, plan: Plan)
    requires
        plans(command, false, plan),
    ensures
        plan is Refuse <==> command !is Run,
{
}

/// Where the log goes.
pub enum LogTarget {
    /// The error stream, after this warning where there is one.
    Errors { warning: Option<String> },
    /// The file and the error stream.
    FileAndErrors,
}

/// Decides where the log goes. `opened` is the path of the log file and how
/// opening it went, `None` if no log file was asked for.
pub fn log_target(opened: Option<(&str, Result<(), String>)>) -> (target: LogTarget)
    ensures
        match opened {
            None => target matches LogTarget::Errors { warning } && warning is None,
            Some((_, Ok(_))) => target is FileAndErrors,
            Some((path, Err(cause))) => target matches LogTarget::Errors { warning: Some(warning) }
                && warning@ == "warning: cannot open log file "@ + path@ + ": "@ + cause@,
        },
{
    match opened {
        None => LogTarget::Errors { warning: None },
        Some((_, Ok(_))) => LogTarget::FileAndErrors,
        Some((path, Err(cause))) => LogTarget::Errors {
            warning: Some(
                String::from_str("warning: cannot open log file ").concat(path).concat(
                    ": ",
                ).concat(cause.as_str()),
            ),
        },
    }
}

/// Every subcommand does what it is named after, with the settings it was given;
/// away from Windows all but `run` are refused, by name.
pub proof fn subcommands_do_as_named(command: Command, on_windows: bool, plan: Plan)
    requires
        call_ensures(self::plan, (command, on_windows), plan),
    ensures
        command matches Command::Run(args) ==> plan == Plan::Serve(args),
        on_windows ==> {
            &&& command matches Command::Service(args) ==> plan == Plan::Dispatch(args)
            &&& command matches Command::Install(args) ==> plan == Plan::Install(args)
            &&& command is Uninstall ==> plan is Uninstall
        },
        !on_windows ==> {
            &&& command is Service ==> (plan matches Plan::Refuse(reason) && reason@
                == "`service` is only available on Windows; use `run`"@)
            &&& command is Install ==> (plan matches Plan::Refuse(reason) && reason@
                == "`install` is only available on Windows"@)
            &&& command is Uninstall ==> (plan matches Plan::Refuse(reason) && reason@
                == "`uninstall` is only available on Windows"@)
        },
{
}

/// A task that failed ends the program with exit code 1 and says what failed and
/// why: in the log for the dispatcher, on the error stream for all others.
pub proof fn failures_name_their_cause(task: Task, cause: String, ending: Ending)
    requires
        call_ensures(conclude, (task, Err(cause)), ending),
    ensures
        ending.exit_code == 1,
        ending.message matches Some(message) && {
            &&& task is Dispatch <==> message.0 is Log
            &&& task !is Dispatch <==> message.0 is Errors
            &&& message.1@ == match task {
                Task::Serve => "server error: "@,
                Task::Dispatch => "service dispatcher failed: "@,
                Task::Install { .. } => "install failed: "@,
                Task::Uninstall => "uninstall failed: "@,
            } + cause@
        },
{
}

/// A task that succeeded ends the program with exit code 0. Only an installation,
/// which names its port, and a removal say so, on the output.
pub proof fn successes_are_confirmed(task: Task, ending: Ending)
    requires
        call_ensures(conclude, (task, Ok(())), ending),
    ensures
        ending.exit_code == 0,
        task is Serve || task is Dispatch <==> ending.message is None,
        task matches Task::Install { port } ==> (ending.message matches Some(message) && message.0
            is Output && message.1@ == "service `DxPdfService` installed and started (port "@
            + decimal(port as nat) + ")"@),
        task is Uninstall ==> (ending.message matches Some(message) && message.0 is Output
            && message.1@ == "service `DxPdfService` removed"@),
{
    reveal_strlit("service `");
    reveal_strlit("DxPdfService");
    reveal_strlit("` installed and started (port ");
    reveal_strlit("service `DxPdfService` installed and started (port ");
    reveal_strlit("` removed");
    reveal_strlit("service `DxPdfService` removed");
    assert("service `"@ + SERVICE_NAME@ + "` installed and started (port "@
        =~= "service `DxPdfService` installed and started (port "@);
    assert("service `"@ + SERVICE_NAME@ + "` removed"@ =~= "service `DxPdfService` removed"@);
}

/// The log goes to the file exactly if one was asked for and could be opened; a
/// file that could not be opened is warned about, by its path and the cause.
pub proof fn log_goes_where_it_can(opened: Option<(&str, Result<(), String>)>, target: LogTarget)
    requires
        call_ensures(log_target, (opened,), target),
    ensures
        target is FileAndErrors <==> (opened matches Some((_, result)) && result is Ok),
        opened is None ==> (target matches LogTarget::Errors { warning } && warning is None),
        opened matches Some((path, Err(cause))) ==> (target matches LogTarget::Errors { warning }
            && warning matches Some(warning) && warning@ == "warning: cannot open log file "@ + path@
            + ": "@ + cause@),
{
}

} // verus!
