# Runs a build command that is told which engine it builds with, and embeds the
# VERSIONINFO resource in what it links.
#
# -Stamp  the program built from app/stamp.rs
# -Build  the build command, as one string
param(
    [Parameter(Mandatory)] [string] $Stamp,
    [Parameter(Mandatory)] [string] $Build
)
$ErrorActionPreference = 'Stop'
[Console]::OutputEncoding = [System.Text.Encoding]::UTF8

$lock = Join-Path $PSScriptRoot '..\Cargo.lock'
$script = Join-Path ([IO.Path]::GetTempPath()) 'dxpdf-service-version.rc'
$resource = [IO.Path]::ChangeExtension($script, '.res')

$env:DXPDF_ENGINE = & $Stamp $lock $script
if ($LASTEXITCODE -ne 0) { exit $LASTEXITCODE }

$failure = 'rc.exe not found'
if (Get-Command rc.exe -ErrorAction SilentlyContinue) {
    rc.exe /nologo /c65001 "/fo$resource" $script
    $failure = if ($LASTEXITCODE -ne 0) { 'rc.exe failed' }
}
if ($failure) {
    Write-Warning ("VERSIONINFO not embedded ($failure); crash reports will show " +
        "version 0.0.0.0. Needs the Windows SDK's rc.exe on PATH.")
} else {
    $env:RUSTFLAGS = "$env:RUSTFLAGS -C link-arg=$resource".Trim()
}
cmd /c $Build
exit $LASTEXITCODE
