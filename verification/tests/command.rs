use dxpdf_service::command::{conclude, log_target, plan, Channel, Command, Ending, LogTarget, Plan, Task};
use dxpdf_service::config::ServeArgs;

fn refusal(plan: Plan) -> String {
    match plan {
        Plan::Refuse(reason) => reason,
        _ => panic!("not refused"),
    }
}

#[test]
fn every_subcommand_runs_on_windows() {
    let args = ServeArgs::default;
    assert!(matches!(plan(Command::Run(args()), true), Plan::Serve(_)));
    assert!(matches!(plan(Command::Service(args()), true), Plan::Dispatch(_)));
    assert!(matches!(plan(Command::Install(args()), true), Plan::Install(a) if a.port == 8080));
    assert!(matches!(plan(Command::Uninstall, true), Plan::Uninstall));
}

#[test]
fn elsewhere_only_the_server_runs() {
    let args = ServeArgs::default;
    assert!(matches!(plan(Command::Run(args()), false), Plan::Serve(_)));
    assert_eq!(
        refusal(plan(Command::Service(args()), false)),
        "`service` is only available on Windows; use `run`"
    );
    assert_eq!(
        refusal(plan(Command::Install(args()), false)),
        "`install` is only available on Windows"
    );
    assert_eq!(
        refusal(plan(Command::Uninstall, false)),
        "`uninstall` is only available on Windows"
    );
}

fn said(ending: Ending) -> (Channel, String, i32) {
    let (channel, text) = ending.message.expect("a message");
    (channel, text, ending.exit_code)
}

#[test]
fn success_is_reported_where_it_was_asked_for() {
    assert_eq!(
        said(conclude(Task::Install { port: 8091 }, Ok(()))),
        (
            Channel::Output,
            "service `DxPdfService` installed and started (port 8091)".to_string(),
            0
        )
    );
    assert_eq!(
        said(conclude(Task::Uninstall, Ok(()))),
        (Channel::Output, "service `DxPdfService` removed".to_string(), 0)
    );
    for task in [Task::Serve, Task::Dispatch] {
        let ending = conclude(task, Ok(()));
        assert!(ending.message.is_none());
        assert_eq!(ending.exit_code, 0);
    }
}

#[test]
fn failure_is_always_reported() {
    let failed = |task: Task| said(conclude(task, Err("why".to_string())));
    assert_eq!(
        failed(Task::Serve),
        (Channel::Errors, "server error: why".to_string(), 1)
    );
    assert_eq!(
        failed(Task::Dispatch),
        (Channel::Log, "service dispatcher failed: why".to_string(), 1)
    );
    assert_eq!(
        failed(Task::Install { port: 1 }),
        (Channel::Errors, "install failed: why".to_string(), 1)
    );
    assert_eq!(
        failed(Task::Uninstall),
        (Channel::Errors, "uninstall failed: why".to_string(), 1)
    );
}

#[test]
fn log_goes_to_the_error_stream_by_default() {
    assert!(matches!(
        log_target(None),
        LogTarget::Errors { warning: None }
    ));
}

#[test]
fn log_goes_to_the_file_and_the_error_stream() {
    assert!(matches!(
        log_target(Some(("/x", Ok(())))),
        LogTarget::FileAndErrors
    ));
}

#[test]
fn unusable_log_file_is_warned_about() {
    match log_target(Some(("/x", Err("denied".to_string())))) {
        LogTarget::Errors {
            warning: Some(warning),
        } => assert_eq!(warning, "warning: cannot open log file /x: denied"),
        _ => panic!("not warned"),
    }
}
