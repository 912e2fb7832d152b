#!/bin/sh
# Runs a build command that is told which engine it builds with.
#
# Usage: build.sh STAMP COMMAND...
# STAMP is the program built from app/stamp.rs.
set -eu

stamp="$1"
shift
DXPDF_ENGINE="$("$stamp" "$(dirname "$0")/../Cargo.lock")"
export DXPDF_ENGINE
exec "$@"
