use dxpdf_service::config::{ServeArgs, ServiceArg};
use dxpdf_service::server::Level;
use dxpdf_service::winsvc::{
    failure_line, install, run, uninstall, Control, ControlAnswer, ControlHandler, ErrorControl, ExitCode,
    InstallReply, Installing, ManagerAccess, ServiceRun, ServiceState, ServiceType, StartType,
    UninstallReply, Uninstalling,
};
use std::path::PathBuf;

#[test]
fn shutdown_is_signalled_at_the_first_stop_only() {
    let mut handler = ControlHandler::new();
    assert_eq!(
        handler.handle(Control::Interrogate),
        (ControlAnswer::NoError, false)
    );
    assert_eq!(
        handler.handle(Control::Other),
        (ControlAnswer::NotImplemented, false)
    );
    assert_eq!(handler.handle(Control::Stop), (ControlAnswer::NoError, true));
    assert_eq!(
        handler.handle(Control::Stop),
        (ControlAnswer::NoError, false)
    );
}

fn stopped_after(result: Result<(), String>) -> ServiceRun {
    run(&ServeArgs::default(), Some(3))
        .advance(Ok(()))
        .advance(Ok(()))
        .advance(result)
}

#[test]
fn service_runs_from_start_to_stop() {
    let state = run(&ServeArgs::default(), Some(3));
    assert!(matches!(&state, ServiceRun::Register { config } if config.concurrency == 3));
    let state = state.advance(Ok(()));
    match &state {
        ServiceRun::ReportRunning { status, .. } => {
            assert_eq!(status.current_state, ServiceState::Running);
            assert_eq!(status.exit_code, ExitCode::Win32(0));
            assert!(status.accepts_stop);
            assert_eq!(status.checkpoint, 0);
            assert_eq!(status.wait_hint_ms, 0);
            assert_eq!(status.service_type, ServiceType::OwnProcess);
            assert_eq!(status.process_id, None);
        }
        _ => panic!("not reported"),
    }
    let state = state.advance(Ok(()));
    assert!(matches!(&state, ServiceRun::Serve { config } if config.port == 8080));
    let state = state.advance(Ok(()));
    match &state {
        ServiceRun::ReportStopped { status, complaint } => {
            assert_eq!(*complaint, None);
            assert_eq!(status.current_state, ServiceState::Stopped);
            assert_eq!(status.exit_code, ExitCode::Win32(0));
            assert_eq!(status.service_type, ServiceType::OwnProcess);
            assert!(status.accepts_stop);
        }
        _ => panic!("not reported"),
    }
    assert!(matches!(
        state.advance(Ok(())),
        ServiceRun::Finished(Ok(()))
    ));
}

#[test]
fn failed_server_stops_with_its_own_exit_code() {
    match stopped_after(Err("port in use".to_string())) {
        ServiceRun::ReportStopped { status, complaint } => {
            assert_eq!(
                complaint,
                Some((Level::Error, "server error: port in use".to_string()))
            );
            assert_eq!(status.current_state, ServiceState::Stopped);
            assert_eq!(status.exit_code, ExitCode::ServiceSpecific(1));
        }
        _ => panic!("not reported"),
    }
}

#[test]
fn failed_run_is_logged() {
    assert_eq!(failure_line(&Ok(())), None);
    assert_eq!(
        failure_line(&Err("refused".to_string())),
        Some((Level::Error, "service failed: refused".to_string()))
    );
}

#[test]
fn refused_reports_end_the_run() {
    let refused = || Err("refused".to_string());
    let args = ServeArgs::default();
    for state in [
        run(&args, None).advance(refused()),
        run(&args, None).advance(Ok(())).advance(refused()),
        stopped_after(Ok(())).advance(refused()),
    ] {
        assert!(matches!(&state, ServiceRun::Finished(Err(cause)) if cause == "refused"));
        assert!(matches!(state.advance(Ok(())), ServiceRun::Finished(Err(_))));
    }
}

#[test]
fn installation_registers_and_starts() {
    let mut args = ServeArgs::default();
    args.port = 8091;
    let state = install(&args);
    assert!(matches!(
        &state,
        Installing::OpenManager {
            access: ManagerAccess::CreateService,
            ..
        }
    ));
    let state = state.advance(InstallReply::Done);
    assert!(matches!(&state, Installing::LocateExecutable { .. }));
    let state = state.advance(InstallReply::Executable(PathBuf::from("/opt/s.exe")));
    match &state {
        Installing::Create { info, rights } => {
            assert_eq!(info.name, "DxPdfService");
            assert_eq!(info.display_name, "dxpdf DOCX to PDF converter");
            assert_eq!(info.start_type, StartType::AutoStart);
            assert_eq!(info.error_control, ErrorControl::Normal);
            assert_eq!(info.executable_path, PathBuf::from("/opt/s.exe"));
            assert_eq!(info.service_type, ServiceType::OwnProcess);
            assert!(info.dependencies.is_empty());
            assert_eq!(info.account_name, None);
            assert_eq!(info.account_password, None);
            assert!(matches!(&info.launch_arguments[4], ServiceArg::Text(port) if port == "8091"));
            assert!(rights.start && rights.query_status && !rights.stop && !rights.delete);
        }
        _ => panic!("not created"),
    }
    let state = state.advance(InstallReply::Done);
    assert!(matches!(&state, Installing::Start));
    assert!(matches!(
        state.advance(InstallReply::Done),
        Installing::Finished(Ok(()))
    ));
}

#[test]
fn installation_stops_at_the_first_failure() {
    let fail = || InstallReply::Failed("denied".to_string());
    let args = ServeArgs::default();
    let located = || {
        install(&args)
            .advance(InstallReply::Done)
            .advance(InstallReply::Executable(PathBuf::from("x")))
    };
    for state in [
        install(&args).advance(fail()),
        install(&args).advance(InstallReply::Done).advance(fail()),
        located().advance(fail()),
        located().advance(InstallReply::Done).advance(fail()),
    ] {
        assert!(matches!(&state, Installing::Finished(Err(cause)) if cause == "denied"));
    }
}

#[test]
fn stray_replies_change_nothing() {
    let args = ServeArgs::default();
    let state = install(&args).advance(InstallReply::Executable(PathBuf::from("x")));
    assert!(matches!(&state, Installing::OpenManager { .. }));
    let state = state.advance(InstallReply::Done).advance(InstallReply::Done);
    assert!(matches!(&state, Installing::LocateExecutable { .. }));
    let state = uninstall().advance(UninstallReply::Status(ServiceState::Running));
    assert!(matches!(&state, Uninstalling::OpenManager { .. }));
}

fn queried() -> Uninstalling {
    let state = uninstall();
    assert!(matches!(
        &state,
        Uninstalling::OpenManager {
            access: ManagerAccess::Connect
        }
    ));
    let state = state.advance(UninstallReply::Done);
    match &state {
        Uninstalling::OpenService { name, rights } => {
            assert_eq!(*name, "DxPdfService");
            assert!(rights.stop && rights.delete && rights.query_status && !rights.start);
        }
        _ => panic!("not opened"),
    }
    state.advance(UninstallReply::Done)
}

#[test]
fn stopped_service_is_deleted_at_once() {
    let state = queried().advance(UninstallReply::Status(ServiceState::Stopped));
    assert!(matches!(&state, Uninstalling::Delete));
    assert!(matches!(
        state.advance(UninstallReply::Done),
        Uninstalling::Finished(Ok(()))
    ));
}

#[test]
fn running_service_is_stopped_first() {
    let state = queried().advance(UninstallReply::Status(ServiceState::Running));
    assert!(matches!(&state, Uninstalling::Stop));
    // A refused stop does not keep the service registered.
    let state = state.advance(UninstallReply::Failed("refused".to_string()));
    assert!(matches!(&state, Uninstalling::Poll { left: 20 }));
    let state = state.advance(UninstallReply::Status(ServiceState::StopPending));
    assert!(matches!(
        &state,
        Uninstalling::Pause {
            milliseconds: 250,
            left: 19
        }
    ));
    let state = state
        .advance(UninstallReply::Done)
        .advance(UninstallReply::Status(ServiceState::Stopped));
    assert!(matches!(&state, Uninstalling::Delete));
}

#[test]
fn patience_with_a_service_ends() {
    let mut state = queried()
        .advance(UninstallReply::Status(ServiceState::Running))
        .advance(UninstallReply::Done);
    let mut pauses = 0;
    let mut questions = 0;
    loop {
        state = match state {
            Uninstalling::Poll { .. } => {
                questions += 1;
                state.advance(UninstallReply::Status(ServiceState::Running))
            }
            Uninstalling::Pause { milliseconds, .. } => {
                assert_eq!(milliseconds, 250);
                pauses += 1;
                state.advance(UninstallReply::Done)
            }
            other => {
                assert!(matches!(other, Uninstalling::Delete));
                break;
            }
        }
    }
    assert_eq!((questions, pauses), (20, 20));
}

#[test]
fn removal_fails_with_the_cause() {
    let fail = || UninstallReply::Failed("denied".to_string());
    for state in [
        uninstall().advance(fail()),
        uninstall().advance(UninstallReply::Done).advance(fail()),
        queried().advance(fail()),
        queried()
            .advance(UninstallReply::Status(ServiceState::Running))
            .advance(UninstallReply::Done)
            .advance(fail()),
        queried()
            .advance(UninstallReply::Status(ServiceState::Stopped))
            .advance(fail()),
    ] {
        assert!(matches!(&state, Uninstalling::Finished(Err(cause)) if cause == "denied"));
    }
}
