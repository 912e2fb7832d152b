use dxpdf_service::config::{ServeArgs, ServiceArg};
use std::path::PathBuf;

fn words(args: &ServeArgs) -> Vec<String> {
    args.to_service_args()
        .into_iter()
        .map(|arg| match arg {
            ServiceArg::Text(text) => text,
            ServiceArg::Path(path) => format!("path:{}", path.display()),
        })
        .collect()
}

fn args() -> ServeArgs {
    ServeArgs {
        host: "127.0.0.1".to_string(),
        port: 8091,
        max_body_mb: 0,
        concurrency: 0,
        log_file: None,
    }
}

#[test]
fn defaults() {
    let args = ServeArgs::default();
    assert_eq!(args.host, "0.0.0.0");
    assert_eq!(args.port, 8080);
    assert_eq!(args.max_body_mb, 100);
    assert_eq!(args.concurrency, 0);
    assert_eq!(args.log_file, None);
}

#[test]
fn config_fills_in_what_is_left_open() {
    let config = args().config(Some(6));
    assert_eq!(config.host, "127.0.0.1");
    assert_eq!(config.port, 8091);
    assert_eq!(config.max_body_mb, 1);
    assert_eq!(config.concurrency, 6);
    assert_eq!(args().config(None).concurrency, 2);
}

#[test]
fn config_keeps_what_is_set() {
    let mut set = args();
    set.max_body_mb = 7;
    set.concurrency = 3;
    let config = set.config(Some(6));
    assert_eq!(config.max_body_mb, 7);
    assert_eq!(config.concurrency, 3);
}

#[test]
fn service_args_without_log_file() {
    assert_eq!(
        words(&args()),
        [
            "service",
            "--host",
            "127.0.0.1",
            "--port",
            "8091",
            "--max-body-mb",
            "0",
            "--concurrency",
            "0"
        ]
    );
}

#[test]
fn service_args_with_log_file() {
    let mut logged = args();
    logged.max_body_mb = usize::MAX;
    logged.log_file = Some(PathBuf::from("/var/log/x.log"));
    let words = words(&logged);
    assert_eq!(words[6], usize::MAX.to_string());
    assert_eq!(words[9..], ["--log-file", "path:/var/log/x.log"]);
}

#[test]
fn different_settings_give_different_command_lines() {
    let mut other = args();
    other.port = 809;
    other.max_body_mb = 10;
    assert_ne!(words(&args()), words(&other));
}

#[test]
fn service_mode_logs_beside_the_executable_by_default() {
    let beside = Some(PathBuf::from("/opt/dxpdf-service.log"));
    let given = Some(PathBuf::from("/tmp/given.log"));
    assert_eq!(args().with_default_log_file(beside.clone()).log_file, beside);
    assert_eq!(args().with_default_log_file(None).log_file, None);
    let mut logged = args();
    logged.log_file = given.clone();
    assert_eq!(logged.with_default_log_file(beside).log_file, given);
}
