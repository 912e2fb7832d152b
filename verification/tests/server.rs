use dxpdf_service::config::{ServeArgs, ServerConfig};
use dxpdf_service::server::{
    build_router, convert, convert_reply, end_level, end_line, health, serve, start_line, version,
    Body, ConvertStep, Endpoint, Level, Method, Outcome, Reply, ServeErrorKind, Serving,
};
use dxpdf_service::StringHashMap;
use std::io::ErrorKind;

fn config() -> ServerConfig {
    ServerConfig {
        host: "0.0.0.0".to_string(),
        port: 8080,
        max_body_mb: 100,
        concurrency: 4,
    }
}

fn text(reply: &Reply) -> &str {
    assert_eq!(reply.content_type, "text/plain; charset=utf-8");
    assert_eq!(reply.content_disposition, None);
    match &reply.body {
        Body::Text(text) => text,
        Body::Bytes(_) => panic!("a document where text was expected"),
    }
}

fn answer(step: ConvertStep) -> Reply {
    match step {
        ConvertStep::Answer(reply) => reply,
        ConvertStep::Render(_) => panic!("converted"),
    }
}

#[test]
fn router_has_every_endpoint() {
    let parts = build_router(&config());
    let routes: Vec<(&str, Method)> = parts
        .endpoints
        .iter()
        .map(|e| (e.path(), e.method()))
        .collect();
    assert_eq!(
        routes,
        [
            ("/health", Method::Get),
            ("/version", Method::Get),
            ("/convert", Method::Post)
        ]
    );
    assert_eq!(parts.endpoints[2], Endpoint::Convert);
}

#[test]
fn router_limits_bodies_and_conversions() {
    let parts = build_router(&config());
    assert_eq!(parts.state.convert_slots.available_permits(), 4);
    assert!(format!("{:?}", parts.body_limit).contains("Limit(104857600)"));
}

#[test]
fn router_has_a_slot_where_none_is_asked_for() {
    let mut none = config();
    none.concurrency = 0;
    assert_eq!(build_router(&none).state.convert_slots.available_permits(), 1);
}

#[test]
fn limits_of_the_router() {
    assert!(ServeArgs::default().config(Some(64)).is_within_limits());
    let mut large = config();
    large.max_body_mb = usize::MAX / 1_048_576;
    assert!(large.is_within_limits());
    large.max_body_mb += 1;
    assert!(!large.is_within_limits());
    let mut busy = config();
    busy.concurrency = usize::MAX / 8;
    assert!(busy.is_within_limits());
    busy.concurrency += 1;
    assert!(!busy.is_within_limits());
}

#[test]
fn health_answers_ok() {
    let reply = health();
    assert_eq!(reply.status, 200);
    assert_eq!(text(&reply), "ok");
}

#[test]
fn version_names_service_and_engine() {
    let reply = version("1.0.2", "0.7.0 (somewhere)");
    assert_eq!(reply.status, 200);
    assert_eq!(
        text(&reply),
        "dxpdf-service 1.0.2 (engine: dxpdf 0.7.0 (somewhere))"
    );
}

#[test]
fn bad_resolution_is_reported_before_an_empty_body() {
    let mut params = StringHashMap::new();
    params.insert("image-dpi".to_string(), "2401".to_string());
    let reply = answer(convert(&params, &[]));
    assert_eq!(reply.status, 400);
    assert_eq!(
        text(&reply),
        "image-dpi: must be between 1 and 2400 (got `2401`)"
    );
    params.insert("image-dpi".to_string(), "x".to_string());
    let reply = answer(convert(&params, b"PK"));
    assert_eq!(reply.status, 400);
    assert_eq!(text(&reply), "image-dpi: `x` is not a valid number");
}

#[test]
fn empty_body_is_refused() {
    let reply = answer(convert(&StringHashMap::new(), &[]));
    assert_eq!(reply.status, 400);
    assert_eq!(
        text(&reply),
        "request body is empty; send the DOCX file bytes as the body"
    );
}

#[test]
fn good_request_is_converted_at_its_resolution() {
    let mut params = StringHashMap::new();
    params.insert("image-dpi".to_string(), "72.5".to_string());
    match convert(&params, b"PK") {
        ConvertStep::Render(dpi) => assert_eq!(f32::from_bits(dpi.bits()), 72.5),
        ConvertStep::Answer(_) => panic!("refused"),
    }
}

#[test]
fn finished_conversion_answers_with_the_document() {
    let reply = convert_reply(Outcome::Pdf(vec![37, 80, 68, 70]));
    assert_eq!(reply.status, 200);
    assert_eq!(reply.content_type, "application/pdf");
    assert_eq!(
        reply.content_disposition,
        Some("attachment; filename=\"output.pdf\"")
    );
    assert!(matches!(&reply.body, Body::Bytes(bytes) if bytes[..] == [37, 80, 68, 70]));
}

#[test]
fn failed_conversion_answers_with_the_cause() {
    let reply = convert_reply(Outcome::Failed("not a zip".to_string()));
    assert_eq!(reply.status, 422);
    assert_eq!(text(&reply), "conversion failed: not a zip");
}

#[test]
fn panicked_conversion_keeps_the_cause_to_the_log() {
    let reply = convert_reply(Outcome::Panicked("task 7 panicked".to_string()));
    assert_eq!(reply.status, 500);
    assert_eq!(text(&reply), "internal error during conversion");
}

#[test]
fn log_lines_carry_the_request_number() {
    assert_eq!(start_line(12, 3400), "#12 start: 3400 bytes");
    assert_eq!(end_line(12, &Outcome::Pdf(vec![0; 5])), "#12 done: 5 bytes");
    assert_eq!(
        end_line(12, &Outcome::Failed("bad".to_string())),
        "#12 failed: bad"
    );
    assert_eq!(
        end_line(0, &Outcome::Panicked("oops".to_string())),
        "#0 panicked: oops"
    );
}

#[test]
fn level_follows_the_outcome() {
    assert_eq!(end_level(&Outcome::Pdf(vec![1])), Level::Info);
    assert_eq!(end_level(&Outcome::Failed("bad".to_string())), Level::Warn);
    assert_eq!(
        end_level(&Outcome::Panicked("oops".to_string())),
        Level::Error
    );
}

#[test]
fn forbidden_address_keeps_its_kind() {
    let failed = serve(&config())
        .advance(Ok("0.0.0.0:8080".to_string()))
        .advance(Err((ErrorKind::PermissionDenied, "denied".to_string())));
    assert_eq!(
        failure(failed).0,
        ServeErrorKind::Bind(ErrorKind::PermissionDenied)
    );
}

#[test]
fn server_starts_step_by_step() {
    let serving = serve(&config());
    match &serving {
        Serving::ParseAddress { address, .. } => assert_eq!(address, "0.0.0.0:8080"),
        _ => panic!("no address to read"),
    }
    let serving = serving.advance(Ok("0.0.0.0:8080".to_string()));
    assert!(matches!(&serving, Serving::Bind { address, .. } if address == "0.0.0.0:8080"));
    let serving = serving.advance(Ok(String::new()));
    match &serving {
        Serving::Accept { announcement } => assert_eq!(
            announcement,
            "listening on http://0.0.0.0:8080 (max body 100 MB)"
        ),
        _ => panic!("not serving"),
    }
    let serving = serving.advance(Ok(String::new()));
    assert!(matches!(serving, Serving::Finished(Ok(()))));
    assert!(matches!(
        serving.advance(Err((ErrorKind::Other, "late".to_string()))),
        Serving::Finished(Ok(()))
    ));
}

fn failure(serving: Serving) -> (ServeErrorKind, String) {
    match serving {
        Serving::Finished(Err(error)) => (error.kind, error.message),
        _ => panic!("did not fail"),
    }
}

#[test]
fn bad_address_is_invalid_input() {
    let failed = serve(&config()).advance(Err((
        ErrorKind::Other,
        "invalid socket address syntax".to_string(),
    )));
    assert_eq!(
        failure(failed),
        (
            ServeErrorKind::InvalidInput,
            "invalid socket address syntax".to_string()
        )
    );
}

#[test]
fn busy_port_is_named() {
    let failed = serve(&config())
        .advance(Ok("0.0.0.0:8080".to_string()))
        .advance(Err((ErrorKind::AddrInUse, "Address already in use".to_string())));
    assert_eq!(
        failure(failed),
        (
            ServeErrorKind::Bind(ErrorKind::AddrInUse),
            "failed to bind 0.0.0.0:8080 (is the port already in use?): Address already in use"
                .to_string()
        )
    );
}

#[test]
fn failing_server_passes_its_cause_on() {
    let failed = serve(&config())
        .advance(Ok("0.0.0.0:8080".to_string()))
        .advance(Ok(String::new()))
        .advance(Err((ErrorKind::ConnectionAborted, "broken".to_string())));
    assert_eq!(
        failure(failed),
        (
            ServeErrorKind::Server(ErrorKind::ConnectionAborted),
            "broken".to_string()
        )
    );
}
