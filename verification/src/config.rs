//! Settings of the service: as given on the command line, and as the server uses them.

use crate::text::{all_digits, decimal, decimal_reads_back, decimal_string, digits_value};
use std::path::PathBuf;
use vstd::prelude::*;

verus! {

/// The paths of the standard library, whose inside is not looked at.
#[verifier::external_type_specification]
#[verifier::external_body]
pub struct ExPathBuf(PathBuf);

/// `PathBuf::clone` returns a copy of the path.
pub assume_specification[ <PathBuf as Clone>::clone ](path: &PathBuf) -> (copy: PathBuf)
    ensures
        copy == *path,
;

/// Number of CPUs to reckon with where it cannot be learnt.
pub const FALLBACK_CPUS: usize = 2;

/// Address that the server binds unless told otherwise.
pub const DEFAULT_HOST: &'static str = "0.0.0.0";

/// Port that the server listens on unless told otherwise.
pub const DEFAULT_PORT: u16 = 8080;

/// Largest request body unless told otherwise, in megabytes.
pub const DEFAULT_MAX_BODY_MB: usize = 100;

/// Number of concurrent conversions unless told otherwise: as many as CPUs.
pub const DEFAULT_CONCURRENCY: usize = 0;

/// Settings of the HTTP server.
#[derive(Clone, Debug)]
pub struct ServerConfig {
    pub host: String,
    pub port: u16,
    pub max_body_mb: usize,
    pub concurrency: usize,
}

/// Settings as given on the command line of `run`, `service` and `install`.
#[derive(Clone, Debug)]
pub struct ServeArgs {
    /// Address to bind.
    pub host: String,
    /// TCP port to listen on.
    pub port: u16,
    /// Maximum accepted request body size, in megabytes.
    pub max_body_mb: usize,
    /// Maximum concurrent conversions (0 = number of CPUs).
    pub concurrency: usize,
    /// Log file path (service mode logs here; foreground logs to stderr too).
    pub log_file: Option<PathBuf>,
}

/// One argument of the command line that starts the service.
#[derive(Debug)]
pub enum ServiceArg {
    Text(String),
    Path(PathBuf),
}

/// What an argument of the command line says.
pub enum ArgView {
    Text(Seq<char>),
    Path(PathBuf),
}

impl View for ServiceArg {
    type V = ArgView;

    open spec fn view(&self) -> ArgView {
        match *self {
            ServiceArg::Text(text) => ArgView::Text(text@),
            ServiceArg::Path(path) => ArgView::Path(path),
        }
    }
}

/// A list of arguments, as what each of them says.
pub open spec fn views(args: Seq<ServiceArg>) -> Seq<ArgView> {
    args.map_values(|arg: ServiceArg| arg@)
}

/// The value that stands behind `flag`, looking at every other argument from `from` on.
pub open spec fn flag_value(args: Seq<ArgView>, flag: Seq<char>, from: int) -> Option<ArgView>
    decreases args.len() - from,
{
    if 0 <= from && from + 1 < args.len() {
        if args[from] == ArgView::Text(flag) {
            Some(args[from + 1])
        } else {
            flag_value(args, flag, from + 2)
        }
    } else {
        None
    }
}

impl Default for ServeArgs {
    fn default() -> (args: ServeArgs)
        ensures
            args.host@ == DEFAULT_HOST@,
            args.port == DEFAULT_PORT,
            args.max_body_mb == DEFAULT_MAX_BODY_MB,
            args.concurrency == DEFAULT_CONCURRENCY,
            args.log_file is None,
    {
        ServeArgs {
            host: String::from_str(DEFAULT_HOST),
            port: DEFAULT_PORT,
            max_body_mb: DEFAULT_MAX_BODY_MB,
            concurrency: DEFAULT_CONCURRENCY,
            log_file: None,
        }
    }
}

impl ServeArgs {
    /// The same settings, whatever objects hold them.
    pub open spec fn same_settings(self, other: ServeArgs) -> bool {
        &&& self.host@ == other.host@
        &&& self.port == other.port
        &&& self.max_body_mb == other.max_body_mb
        &&& self.concurrency == other.concurrency
        &&& self.log_file == other.log_file
    }

    /// The command line that starts the service with these settings.
    pub open spec fn service_arguments(self) -> Seq<ArgView> {
        let always = seq![
            ArgView::Text("service"@),
            ArgView::Text("--host"@),
            ArgView::Text(self.host@),
            ArgView::Text("--port"@),
            ArgView::Text(decimal(self.port as nat)),
            ArgView::Text("--max-body-mb"@),
            ArgView::Text(decimal(self.max_body_mb as nat)),
            ArgView::Text("--concurrency"@),
            ArgView::Text(decimal(self.concurrency as nat)),
        ];
        match self.log_file {
            Some(path) => always + seq![ArgView::Text("--log-file"@), ArgView::Path(path)],
            None => always,
        }
    }

    /// `config` are the server settings that these arguments ask for.
    pub open spec fn configures(self, cpus: Option<usize>, config: ServerConfig) -> bool {
        &&& config.host@ == self.host@
        &&& config.port == self.port
        &&& config.max_body_mb == if self.max_body_mb == 0 {
            1
        } else {
            self.max_body_mb
        }
        &&& config.concurrency == if self.concurrency != 0 {
            self.concurrency
        } else {
            match cpus {
                Some(n) => n,
                None => FALLBACK_CPUS,
            }
        }
    }

    /// The server settings, on a machine with `cpus` CPUs, `None` if their
    /// number cannot be learnt.
    pub fn config(&self, cpus: Option<usize>) -> (config: ServerConfig)
        ensures
            self.configures(cpus, config),
    {
        let cpus: usize = match cpus {
            Some(n) => n,
            None => FALLBACK_CPUS,
        };
        ServerConfig {
            host: self.host.clone(),
            port: self.port,
            max_body_mb: if self.max_body_mb == 0 {
                1
            } else {
                self.max_body_mb
            },
            concurrency: if self.concurrency == 0 {
                cpus
            } else {
                self.concurrency
            },
        }
    }

    /// Rebuilds the argument vector that launches the service, so that
    /// installing it freezes the current settings into its registration.
    pub fn to_service_args(&self) -> (args: Vec<ServiceArg>)
        ensures
            views(args@) == self.service_arguments(),
            args@.len() == self.service_arguments().len(),
            forall|i: int|
                0 <= i < args@.len() ==> (#[trigger] args@[i])@ == self.service_arguments()[i],
    {
        let mut args: Vec<ServiceArg> = Vec::new();
        args.push(ServiceArg::Text(String::from_str("service")));
        args.push(ServiceArg::Text(String::from_str("--host")));
        args.push(ServiceArg::Text(self.host.clone()));
        args.push(ServiceArg::Text(String::from_str("--port")));
        args.push(ServiceArg::Text(decimal_string(self.port as u64)));
        args.push(ServiceArg::Text(String::from_str("--max-body-mb")));
        args.push(ServiceArg::Text(decimal_string(self.max_body_mb as u64)));
        args.push(ServiceArg::Text(String::from_str("--concurrency")));
        args.push(ServiceArg::Text(decimal_string(self.concurrency as u64)));
        if let Some(path) = &self.log_file {
            args.push(ServiceArg::Text(String::from_str("--log-file")));
            args.push(ServiceArg::Path(path.clone()));
        }
        assert(views(args@) =~= self.service_arguments());
        assert forall|i: int| 0 <= i < args@.len() implies (#[trigger] args@[i])@
            == self.service_arguments()[i] by {
            assert(views(args@)[i] == args@[i]@);
        }
        args
    }

    /// The settings that service mode runs with. A service has no console, so
    /// without a log file of its own it logs to `beside_exe`.
    pub fn with_default_log_file(self, beside_exe: Option<PathBuf>) -> (args: ServeArgs)
        ensures
            args.host == self.host,
            args.port == self.port,
            args.max_body_mb == self.max_body_mb,
            args.concurrency == self.concurrency,
            args.log_file == match self.log_file {
                Some(path) => Some(path),
                None => beside_exe,
            },
    {
        let log_file: Option<PathBuf> = match self.log_file {
            Some(path) => Some(path),
            None => beside_exe,
        };
        ServeArgs {
            host: self.host,
            port: self.port,
            max_body_mb: self.max_body_mb,
            concurrency: self.concurrency,
            log_file,
        }
    }
}

/// Each flag of the frozen command line is followed by the setting it names,
/// and the numbers read back as they were.
pub proof fn service_args_state_every_setting(settings: ServeArgs)
    ensures
        settings.service_arguments()[0] == ArgView::Text("service"@),
        flag_value(settings.service_arguments(), "--host"@, 1) == Some(ArgView::Text(settings.host@)),
        flag_value(settings.service_arguments(), "--port"@, 1) == Some(
            ArgView::Text(decimal(settings.port as nat)),
        ),
        flag_value(settings.service_arguments(), "--max-body-mb"@, 1) == Some(
            ArgView::Text(decimal(settings.max_body_mb as nat)),
        ),
        flag_value(settings.service_arguments(), "--concurrency"@, 1) == Some(
            ArgView::Text(decimal(settings.concurrency as nat)),
        ),
        flag_value(settings.service_arguments(), "--log-file"@, 1) == match settings.log_file {
            Some(path) => Some(ArgView::Path(path)),
            None => None,
        },
        digits_value(decimal(settings.port as nat)) == settings.port,
        digits_value(decimal(settings.max_body_mb as nat)) == settings.max_body_mb,
        digits_value(decimal(settings.concurrency as nat)) == settings.concurrency,
{
    reveal_strlit("--host");
    reveal_strlit("--port");
    reveal_strlit("--max-body-mb");
    reveal_strlit("--concurrency");
    reveal_strlit("--log-file");
    assert("--host"@[2] == 'h' && "--port"@[2] == 'p' && "--max-body-mb"@[2] == 'm'
        && "--concurrency"@[2] == 'c' && "--log-file"@[2] == 'l');
    reveal_with_fuel(flag_value, 6);
    decimal_reads_back(settings.port as nat);
    decimal_reads_back(settings.max_body_mb as nat);
    decimal_reads_back(settings.concurrency as nat);
}

/// Different settings freeze into different command lines.
pub proof fn service_args_determine_settings(a: ServeArgs, b: ServeArgs)
    requires
        a.service_arguments() == b.service_arguments(),
    ensures
        a.same_settings(b),
{
    service_args_state_every_setting(a);
    service_args_state_every_setting(b);
}

/// Whatever the settings, the server accepts bodies of a megabyte and converts
/// at least one document at a time.
pub proof fn config_leaves_room(args: ServeArgs, cpus: Option<usize>, config: ServerConfig)
    requires
        cpus matches Some(n) ==> n > 0,
        args.configures(cpus, config),
    ensures
        config.max_body_mb >= 1,
        config.concurrency >= 1,
{
}

/// The server listens where it was told to, accepts bodies as large as it was
/// told to but at least a megabyte, and converts as many documents at once as it
/// was told to, or else as many as there are CPUs.
pub proof fn settings_reach_the_server(args: &ServeArgs, cpus: Option<usize>, config: ServerConfig)
    requires
        call_ensures(ServeArgs::config, (args, cpus), config),
    ensures
        config.host@ == args.host@,
        config.port == args.port,
        args.max_body_mb >= 1 ==> config.max_body_mb == args.max_body_mb,
        args.max_body_mb == 0 ==> config.max_body_mb == 1,
        args.concurrency >= 1 ==> config.concurrency == args.concurrency,
        args.concurrency == 0 ==> (cpus matches Some(n) ==> config.concurrency == n),
        args.concurrency == 0 && cpus is None ==> config.concurrency == 2,
{
}

/// Without settings of its own the server listens on every interface, on port
/// 8080, accepts 100 megabytes, uses every CPU and has no log file.
pub proof fn defaults_are_documented(args: ServeArgs)
    requires
        call_ensures(<ServeArgs as Default>::default, (), args),
    ensures
        args.host@ == "0.0.0.0"@,
        args.port == 8080,
        args.max_body_mb == 100,
        args.concurrency == 0,
        args.log_file is None,
{
}

/// The command line that a service is registered with is `service`, followed by
/// each flag once, with the setting it names behind it, and by nothing else.
pub proof fn command_line_states_settings(settings: &ServeArgs, args: Vec<ServiceArg>)
    requires
        call_ensures(ServeArgs::to_service_args, (settings,), args),
    ensures
        args@.len() == if settings.log_file is Some {
            11int
        } else {
            9
        },
        args@[0]@ == ArgView::Text("service"@),
        args@[1]@ == ArgView::Text("--host"@) && args@[2]@ == ArgView::Text(settings.host@),
        args@[3]@ == ArgView::Text("--port"@),
        args@[4]@ matches ArgView::Text(port) && all_digits(port) && digits_value(port) == settings.port,
        args@[5]@ == ArgView::Text("--max-body-mb"@),
        args@[6]@ matches ArgView::Text(mb) && all_digits(mb) && digits_value(mb)
            == settings.max_body_mb,
        args@[7]@ == ArgView::Text("--concurrency"@),
        args@[8]@ matches ArgView::Text(n) && all_digits(n) && digits_value(n)
            == settings.concurrency,
        settings.log_file matches Some(path) ==> {
            &&& args@[9]@ == ArgView::Text("--log-file"@)
            &&& args@[10]@ == ArgView::Path(path)
        },
{
    decimal_reads_back(settings.port as nat);
    decimal_reads_back(settings.max_body_mb as nat);
    decimal_reads_back(settings.concurrency as nat);
}

/// Two services registered with the same command line have the same settings.
pub proof fn command_lines_tell_settings_apart(
    a: &ServeArgs,
    b: &ServeArgs,
    first: Vec<ServiceArg>,
    second: Vec<ServiceArg>,
)
    requires
        call_ensures(ServeArgs::to_service_args, (a,), first),
        call_ensures(ServeArgs::to_service_args, (b,), second),
        views(first@) == views(second@),
    ensures
        a.host@ == b.host@,
        a.port == b.port,
        a.max_body_mb == b.max_body_mb,
        a.concurrency == b.concurrency,
        a.log_file == b.log_file,
{
    command_line_states_settings(a, first);
    command_line_states_settings(b, second);
    assert(first@.len() == views(first@).len() && second@.len() == views(second@).len());
    assert forall|i: int| 0 <= i < first@.len() implies (#[trigger] first@[i])@ == second@[i]@ by {
        assert(views(first@)[i] == views(second@)[i]);
    }
    assert(first@[2]@ == second@[2]@ && first@[4]@ == second@[4]@ && first@[6]@ == second@[6]@
        && first@[8]@ == second@[8]@);
    if a.log_file is Some {
        assert(first@[10]@ == second@[10]@);
    }
}

/// A service logs to the file it was given, or else beside its executable, and
/// otherwise keeps its settings.
pub proof fn service_logs_somewhere(args: ServeArgs, beside_exe: Option<PathBuf>, own: ServeArgs)
    requires
        call_ensures(ServeArgs::with_default_log_file, (args, beside_exe), own),
    ensures
        args.log_file is Some ==> own.log_file == args.log_file,
        args.log_file is None ==> own.log_file == beside_exe,
        own.host@ == args.host@,
        own.port == args.port,
        own.max_body_mb == args.max_body_mb,
        own.concurrency == args.concurrency,
{
}

} // verus!
