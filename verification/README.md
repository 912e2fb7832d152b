# dxpdf-service

An HTTP DOCX to PDF conversion service around the dxpdf engine, deployable as a
native Windows service. What the service decides is verified with Verus; what it
only performs (sockets, the service manager, the engine) is ordinary Rust.

## Layout

- `src/` is the verified library:
  - `image_dpi` reads the `image-dpi` parameter of a request; `literal` is the
    grammar of floating-point numbers, `fraction` and `binary32` round them to
    IEEE 754 binary32 on integers alone;
  - `server` holds the routes, the answers, the log lines and the start-up;
  - `config` turns command-line settings into server settings and back into the
    command line of the installed service;
  - `winsvc` is the life, the registration and the removal of the service;
  - `command` says which subcommand runs where and how it ends;
  - `engine` names the engine's build from `Cargo.lock`;
  - `text` writes and reads decimal numbers.
- `tests/` runs the library on concrete values.
- `app/` is the program: argument parsing, axum, tokio, the Service Control
  Manager and the engine.
- `extras/` holds the scripts that hand the build identity to a build.

The service manager and the start-up of the server are step machines: a value
says which action is next, the program performs it, and `advance` takes the
result.

## HTTP API

| Method | Path | Description |
|---|---|---|
| `POST` | `/convert?image-dpi=300` | body: raw .docx bytes; answer: `application/pdf` |
| `GET` | `/health` | liveness probe, answers `ok` |
| `GET` | `/version` | the service's version and the engine build inside it |

`image-dpi` (`image_dpi` is accepted too) ranges from 1 to 2400 and defaults to
220. Answers: `200` with the PDF; `400` for a bad `image-dpi` or an empty body;
`413` for a body over `--max-body-mb`; `422` if the engine refuses the document;
`500` if it panics.

## Build identity

The program names the engine it was built with in its first log line, in
`GET /version` and in `--version`. A build learns of the engine from the
environment variable `DXPDF_ENGINE`; without it the engine is called `unknown`.

`app/stamp.rs` is a program of its own, to be built first. It reads `Cargo.lock`,
prints what the engine is called and, if asked, writes the VERSIONINFO resource
that a Windows program file carries, both as `engine` says. Two scripts run it
and then a build command:

- `extras/build.sh STAMP COMMAND...`;
- `extras/build.ps1 -Stamp STAMP -Build COMMAND`, on Windows, which also embeds
  the resource. Without `rc.exe` on `PATH` it is left out, with a warning.

## Logging

The log goes to stderr and, with `--log-file`, to that file too. If the file
cannot be opened, a warning says so and the log goes to stderr alone.
