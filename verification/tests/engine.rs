use dxpdf_service::engine::{engine_identity, lock_entry, start_banner, version_resource, version_text};

const LOCK: &str = r#"version = 4

[[package]]
name = "dxpdf"
version = "0.7.0"
source = "git+https://github.com/ikashapov/dxpdf?tag=service-2026-09-11#dc331570aabbccddeeff00112233445566778899"
dependencies = [
 "log",
]

[[package]]
name = "log"
version = "0.4.35"
source = "registry+https://github.com/rust-lang/crates.io-index"
"#;

fn identity(source: &str) -> String {
    engine_identity(Some(&format!(
        "[[package]]\r\nname = \"dxpdf\"\r\nversion = \"0.7.0\"\r\nsource = \"{source}\"\r\n"
    )))
}

#[test]
fn tagged_engine_is_named_with_its_commit() {
    assert_eq!(
        engine_identity(Some(LOCK)),
        "0.7.0 (https://github.com/ikashapov/dxpdf tag=service-2026-09-11 @ dc33157)"
    );
    assert_eq!(
        start_banner("1.0.2", &engine_identity(Some(LOCK))),
        "dxpdf-service 1.0.2 starting (engine: dxpdf 0.7.0 (https://github.com/ikashapov/dxpdf tag=service-2026-09-11 @ dc33157))"
    );
    assert_eq!(
        version_text("1.0.2", "x"),
        "dxpdf-service 1.0.2 (engine: dxpdf x)"
    );
}

#[test]
fn entries_of_the_lock() {
    assert_eq!(
        lock_entry(LOCK, "log"),
        Some((
            "0.4.35".to_string(),
            Some("registry+https://github.com/rust-lang/crates.io-index".to_string())
        ))
    );
    assert_eq!(lock_entry(LOCK, "tokio"), None);
    assert_eq!(lock_entry("", "log"), None);
    assert_eq!(lock_entry("name = \"log\"", "log"), None);
    assert_eq!(
        lock_entry("name = \"log\"\nversion = \"1\"", "log"),
        Some(("1".to_string(), None))
    );
    assert_eq!(
        lock_entry("\u{3000}name = \"log\"\t\n  version = \"\"1\"\"\u{a0}\n", "log"),
        Some(("1".to_string(), None))
    );
}

#[test]
fn entry_ends_at_a_blank_line_or_header() {
    let blank = "name = \"a\"\nsource = \"s\"\n\nversion = \"1\"\n";
    assert_eq!(lock_entry(blank, "a"), None);
    let header = "name = \"a\"\nversion = \"1\"\n[[package]]\nsource = \"s\"\n";
    assert_eq!(lock_entry(header, "a"), Some(("1".to_string(), None)));
    let twice = "name = \"a\"\nversion = \"1\"\nversion = \"2\"\n";
    assert_eq!(lock_entry(twice, "a"), Some(("2".to_string(), None)));
}

#[test]
fn unknown_engines() {
    assert_eq!(
        engine_identity(None),
        "unknown (no Cargo.lock at build time)"
    );
    assert_eq!(
        engine_identity(Some("")),
        "unknown (dxpdf not in Cargo.lock)"
    );
}

#[test]
fn other_sources() {
    assert_eq!(
        identity("registry+https://github.com/rust-lang/crates.io-index"),
        "0.7.0 (registry+https://github.com/rust-lang/crates.io-index)"
    );
    assert_eq!(
        engine_identity(Some("name = \"dxpdf\"\nversion = \"0.7.0\"\n")),
        "0.7.0 (local path checkout \u{2014} not a pinned build)"
    );
}

#[test]
fn other_pins() {
    assert_eq!(
        identity("git+https://h/o/r?branch=main#0123456789"),
        "0.7.0 (https://h/o/r branch=main @ 0123456)"
    );
    assert_eq!(
        identity("git+https://h/o/r?rev=abc#0123"),
        "0.7.0 (https://h/o/r rev=abc @ 0123)"
    );
    assert_eq!(
        identity("git+https://h/o/r#0123456789"),
        "0.7.0 (https://h/o/r default branch @ 0123456)"
    );
    assert_eq!(
        identity("git+https://h/o/r"),
        "0.7.0 (https://h/o/r default branch @ )"
    );
    assert_eq!(
        identity("git+git+x?tag=atag=b#1#2"),
        "0.7.0 (x tag=a @ 2)"
    );
}

#[test]
fn program_file_is_stamped_with_the_engine() {
    let strings = version_resource("0.7.0 (somewhere)");
    assert_eq!(strings.len(), 6);
    assert_eq!(strings[0], ("ProductName", "dxpdf-service".to_string()));
    assert_eq!(
        strings[1],
        (
            "FileDescription",
            "dxpdf DOCX to PDF conversion service (HTTP)".to_string()
        )
    );
    assert_eq!(
        strings[5],
        ("Comments", "engine: dxpdf 0.7.0 (somewhere)".to_string())
    );
}
