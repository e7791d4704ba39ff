//! Operational logging settings from configuration: the `[logging]` table
//! and its `[[logging.sinks]]` file sinks, validated and merged over the
//! settings in force. Levels, formats and rotation settings are parsed by
//! the relay runtime; what its parsers returned is read here, together
//! with its queue limits and defaults.

use vstd::prelude::*;
use vstd::string::StringExecFns;
use crate::decimal::{decimal_text, push_decimal};
use crate::errors::CliError;

verus! {

/// Why the runtime refused a logging setting.
pub enum SettingError {
    /// The setting's text was invalid; the message says how.
    InvalidArgument(String),
    /// Any other runtime failure, by its message.
    Other(String),
}

/// A refused setting as a command-line error: an invalid argument is a
/// configuration error with the runtime's message.
pub fn logging_parse_error(error: SettingError) -> (e: CliError)
    ensures
        match error {
            SettingError::InvalidArgument(m) => e == CliError::Config(m),
            SettingError::Other(m) => e == CliError::Flow(m),
        },
{
    match error {
        SettingError::InvalidArgument(m) => CliError::Config(m),
        SettingError::Other(m) => CliError::Flow(m),
    }
}

/// The runtime's bounds and defaults for file sinks.
#[derive(Clone, Copy)]
pub struct SinkLimits {
    /// The most pending queue entries a file sink may ask for.
    pub max_queue_entries: usize,
    /// The queue entries of a sink that asks for none.
    pub default_queue_entries: usize,
}

/// One `[[logging.sinks]]` entry as configured, its level, format and
/// rotation as the runtime parsed or built them.
pub struct RawFileLogSink<L, F, R> {
    pub path: Option<String>,
    /// The sink's level, when one is configured.
    pub level: Option<Result<L, SettingError>>,
    /// The sink's format, when one is configured.
    pub format: Option<Result<F, SettingError>>,
    pub queue_capacity: Option<usize>,
    pub max_file_size_bytes: Option<u64>,
    pub retained_files: Option<usize>,
    /// The rotation built from both size settings, when both are set.
    pub rotation: Option<Result<R, SettingError>>,
}

impl<L, F, R> RawFileLogSink<L, F, R> {
    /// The rotation was built exactly when both of its settings are set.
    pub open spec fn wf(&self) -> bool {
        self.rotation.is_some() == (self.max_file_size_bytes.is_some() && self.retained_files.is_some())
    }
}

/// A validated file sink.
pub struct FileLogSink<L, F, R> {
    pub path: String,
    pub level: L,
    pub format: F,
    pub queue_capacity: usize,
    pub rotation: Option<R>,
}

/// A failed setting, as the command-line error it becomes.
pub enum SettingFailure {
    Config(Seq<char>),
    Flow(Seq<char>),
}

pub open spec fn failure_of(e: SettingError) -> SettingFailure {
    match e {
        SettingError::InvalidArgument(m) => SettingFailure::Config(m@),
        SettingError::Other(m) => SettingFailure::Flow(m@),
    }
}

/// `e` is the command-line error of `f`.
pub open spec fn reports(e: CliError, f: SettingFailure) -> bool {
    match f {
        SettingFailure::Config(m) => e matches CliError::Config(x) && x@ == m,
        SettingFailure::Flow(m) => e matches CliError::Flow(x) && x@ == m,
    }
}

pub open spec fn queue_too_large_message(capacity: nat, max: nat) -> Seq<char> {
    "logging sink queue_capacity "@ + decimal_text(capacity) + " exceeds maximum "@ + decimal_text(max)
        + " entries per file sink"@
}

/// The refusal of a parsed setting, if it was refused.
pub open spec fn refusal<T>(setting: Option<Result<T, SettingError>>) -> Option<SettingFailure> {
    match setting {
        Some(Err(e)) => Some(failure_of(e)),
        _ => None,
    }
}

/// The refusal of a queue capacity, if it is refused.
pub open spec fn queue_refusal(capacity: Option<usize>, limits: SinkLimits) -> Option<SettingFailure> {
    match capacity {
        Some(c) => if c == 0 {
            Some(SettingFailure::Config("logging sink queue_capacity must be greater than 0"@))
        } else if c > limits.max_queue_entries {
            Some(SettingFailure::Config(queue_too_large_message(c as nat, limits.max_queue_entries as nat)))
        } else {
            None
        },
        None => None,
    }
}

/// A parsed setting, or its default when it is not configured.
pub open spec fn or_default<T>(setting: Option<Result<T, SettingError>>, default: T) -> T {
    match setting {
        Some(Ok(v)) => v,
        _ => default,
    }
}

/// The sink a configured entry gives, or why it is refused, checked in
/// this order: the path (present, not empty), the level and the format as
/// parsed (the defaults when not configured), the queue capacity (not 0,
/// at most the maximum, the default when not configured), and the
/// rotation settings (both or neither, and as built).
pub open spec fn sink_outcome<L, F, R>(
    raw: RawFileLogSink<L, F, R>,
    default_level: L,
    default_format: F,
    limits: SinkLimits,
) -> Result<FileLogSink<L, F, R>, SettingFailure> {
    if raw.path is None {
        Err(SettingFailure::Config("logging sink requires path"@))
    } else if raw.path->0@.len() == 0 {
        Err(SettingFailure::Config("logging sink path must not be empty"@))
    } else if refusal(raw.level) is Some {
        Err(refusal(raw.level)->0)
    } else if refusal(raw.format) is Some {
        Err(refusal(raw.format)->0)
    } else if queue_refusal(raw.queue_capacity, limits) is Some {
        Err(queue_refusal(raw.queue_capacity, limits)->0)
    } else if raw.max_file_size_bytes.is_some() != raw.retained_files.is_some() {
        Err(SettingFailure::Config("logging sink max_file_size_bytes and retained_files must be configured together"@))
    } else if refusal(raw.rotation) is Some {
        Err(refusal(raw.rotation)->0)
    } else {
        Ok(FileLogSink {
            path: raw.path->0,
            level: or_default(raw.level, default_level),
            format: or_default(raw.format, default_format),
            queue_capacity: match raw.queue_capacity {
                Some(c) => c,
                None => limits.default_queue_entries,
            },
            rotation: match raw.rotation {
                Some(Ok(r)) => Some(r),
                _ => None,
            },
        })
    }
}

/// The outcome of a sink as it is returned.
pub open spec fn sink_returned<L, F, R>(
    r: Result<FileLogSink<L, F, R>, CliError>,
    o: Result<FileLogSink<L, F, R>, SettingFailure>,
) -> bool {
    match o {
        Ok(s) => r == Ok::<FileLogSink<L, F, R>, CliError>(s),
        Err(f) => r matches Err(e) && reports(e, f),
    }
}

fn config_error(text: &str) -> (e: CliError)
    ensures
        e matches CliError::Config(m) && m@ == text@,
{
    CliError::Config(text.to_string())
}

/// Validates one configured file sink (see `sink_outcome`); the level and
/// format default to `default_level` and `default_format`.
pub fn parse_file_log_sink<L, F, R>(
    raw: RawFileLogSink<L, F, R>,
    default_level: L,
    default_format: F,
    limits: SinkLimits,
) -> (r: Result<FileLogSink<L, F, R>, CliError>)
    requires
        raw.wf(),
    ensures
        sink_returned(r, sink_outcome(raw, default_level, default_format, limits)),
{
    let ghost spec_raw = raw;
    let path = match raw.path {
        None => return Err(config_error("logging sink requires path")),
        Some(p) => p,
    };
    if path.as_str().unicode_len() == 0 {
        return Err(config_error("logging sink path must not be empty"));
    }
    let level = match raw.level {
        Some(Ok(l)) => l,
        Some(Err(e)) => return Err(logging_parse_error(e)),
        None => default_level,
    };
    let format = match raw.format {
        Some(Ok(f)) => f,
        Some(Err(e)) => return Err(logging_parse_error(e)),
        None => default_format,
    };
    let queue_capacity = match raw.queue_capacity {
        Some(c) => {
            if c == 0 {
                return Err(config_error("logging sink queue_capacity must be greater than 0"));
            }
            if c > limits.max_queue_entries {
                let mut m = String::new();
                m.append("logging sink queue_capacity ");
                push_decimal(&mut m, c as u64);
                m.append(" exceeds maximum ");
                push_decimal(&mut m, limits.max_queue_entries as u64);
                m.append(" entries per file sink");
                assert(m@ =~= queue_too_large_message(c as nat, limits.max_queue_entries as nat));
                return Err(CliError::Config(m));
            }
            c
        },
        None => limits.default_queue_entries,
    };
    if raw.max_file_size_bytes.is_some() != raw.retained_files.is_some() {
        return Err(config_error("logging sink max_file_size_bytes and retained_files must be configured together"));
    }
    let rotation = match raw.rotation {
        Some(Ok(r)) => Some(r),
        Some(Err(e)) => return Err(logging_parse_error(e)),
        None => None,
    };
    Ok(FileLogSink { path, level, format, queue_capacity, rotation })
}

/// The logging settings in force.
pub struct LoggingSettings<L, F, R> {
    pub level: L,
    pub stderr_enabled: bool,
    pub stderr_format: F,
    /// The periodic flush interval of file sinks, in milliseconds (0:
    /// flush only on shutdown).
    pub flush_interval_millis: u64,
    pub sinks: Vec<FileLogSink<L, F, R>>,
}

/// The `[logging]` table of a configuration file, its level and format as
/// the runtime parsed them.
pub struct FileLoggingConfig<L, F, R> {
    pub level: Option<Result<L, SettingError>>,
    pub stderr_enabled: Option<bool>,
    pub stderr_format: Option<Result<F, SettingError>>,
    pub flush_interval_millis: Option<u64>,
    pub sinks: Vec<RawFileLogSink<L, F, R>>,
}

/// The index of the first of the first `n` sinks that is refused, if any.
pub open spec fn first_refused_sink<L, F, R>(
    sinks: Seq<RawFileLogSink<L, F, R>>,
    n: int,
    default_level: L,
    default_format: F,
    limits: SinkLimits,
) -> Option<int>
    decreases n,
{
    if n <= 0 {
        None
    } else {
        match first_refused_sink(sinks, n - 1, default_level, default_format, limits) {
            Some(k) => Some(k),
            None => if sink_outcome(sinks[n - 1], default_level, default_format, limits) is Err {
                Some(n - 1)
            } else {
                None
            },
        }
    }
}

/// The settings after the configured level, stderr switch, stderr format
/// and flush interval are applied (not the sinks).
pub open spec fn scalars_applied<L, F, R>(
    old_settings: LoggingSettings<L, F, R>,
    c: FileLoggingConfig<L, F, R>,
    default_flush_interval_millis: u64,
) -> LoggingSettings<L, F, R> {
    LoggingSettings {
        level: or_default(c.level, old_settings.level),
        stderr_enabled: match c.stderr_enabled {
            Some(b) => b,
            None => old_settings.stderr_enabled,
        },
        stderr_format: or_default(c.stderr_format, old_settings.stderr_format),
        flush_interval_millis: match c.flush_interval_millis {
            Some(ms) => ms,
            None => default_flush_interval_millis,
        },
        ..old_settings
    }
}

/// Every configured sink is well formed.
pub open spec fn sinks_wf<L, F, R>(sinks: Seq<RawFileLogSink<L, F, R>>) -> bool {
    forall|i: int| 0 <= i < sinks.len() ==> (#[trigger] sinks[i]).wf()
}

/// Applies a configured `[logging]` table, in order: the level, the stderr
/// switch, the stderr format, the flush interval (the runtime default when
/// not configured) and, when any are configured, the file sinks, whose
/// level defaults to the level just applied and whose format defaults to
/// `default_sink_format`. A refused setting stops there, leaving what was
/// applied before it.
pub fn apply_file_logging_config<L: Copy, F: Copy, R>(
    logging: &mut LoggingSettings<L, F, R>,
    config: Option<FileLoggingConfig<L, F, R>>,
    default_flush_interval_millis: u64,
    default_sink_format: F,
    limits: SinkLimits,
) -> (r: Result<(), CliError>)
    requires
        config matches Some(c) ==> sinks_wf(c.sinks@),
    ensures
        match config {
            None => r is Ok && *final(logging) == *old(logging),
            Some(c) => {
                let applied = scalars_applied(*old(logging), c, default_flush_interval_millis);
                if refusal(c.level) is Some {
                    r matches Err(e) && reports(e, refusal(c.level)->0) && *final(logging) == *old(logging)
                } else if refusal(c.stderr_format) is Some {
                    r matches Err(e) && reports(e, refusal(c.stderr_format)->0)
                        && *final(logging) == (LoggingSettings {
                            stderr_format: old(logging).stderr_format,
                            flush_interval_millis: old(logging).flush_interval_millis,
                            ..applied
                        })
                } else if c.sinks@.len() == 0 {
                    r is Ok && *final(logging) == applied
                } else {
                    match first_refused_sink(c.sinks@, c.sinks@.len() as int, applied.level, default_sink_format, limits) {
                        Some(k) => (r matches Err(e)
                            && reports(e, sink_outcome(c.sinks@[k], applied.level, default_sink_format, limits)->Err_0)
                            && *final(logging) == applied),
                        None => {
                            &&& r is Ok
                            &&& final(logging).level == applied.level
                            &&& final(logging).stderr_enabled == applied.stderr_enabled
                            &&& final(logging).stderr_format == applied.stderr_format
                            &&& final(logging).flush_interval_millis == applied.flush_interval_millis
                            &&& final(logging).sinks@.len() == c.sinks@.len()
                            &&& forall|i: int| 0 <= i < c.sinks@.len() ==> final(logging).sinks@[i]
                                == sink_outcome(c.sinks@[i], applied.level, default_sink_format, limits)->Ok_0
                        },
                    }
                }
            },
        },
{
    let ghost config_spec = config;
    let c = match config {
        None => return Ok(()),
        Some(c) => c,
    };
    let ghost c_spec = c;
    let ghost old_settings = *logging;
    match c.level {
        Some(Ok(l)) => logging.level = l,
        Some(Err(e)) => return Err(logging_parse_error(e)),
        None => {},
    }
    match c.stderr_enabled {
        Some(b) => logging.stderr_enabled = b,
        None => {},
    }
    match c.stderr_format {
        Some(Ok(f)) => logging.stderr_format = f,
        Some(Err(e)) => return Err(logging_parse_error(e)),
        None => {},
    }
    logging.flush_interval_millis = match c.flush_interval_millis {
        Some(ms) => ms,
        None => default_flush_interval_millis,
    };
    let ghost applied = scalars_applied(old_settings, c_spec, default_flush_interval_millis);
    assert(logging.level == applied.level);
    if c.sinks.len() == 0 {
        return Ok(());
    }
    let default_sink_level = logging.level;
    let ghost raws = c.sinks@;
    let mut remaining = c.sinks;
    let mut parsed: Vec<FileLogSink<L, F, R>> = Vec::new();
    let mut i: usize = 0;
    while remaining.len() > 0
        invariant
            config_spec == config,
            config_spec == Some(c_spec),
            c_spec.sinks@ == raws,
            refusal(c_spec.level) is None,
            refusal(c_spec.stderr_format) is None,
            old_settings == *old(logging),
            applied == scalars_applied(old_settings, c_spec, default_flush_interval_millis),
            raws.len() > 0,
            raws.len() <= usize::MAX,
            sinks_wf(raws),
            i + remaining@.len() == raws.len(),
            remaining@ == raws.subrange(i as int, raws.len() as int),
            parsed@.len() == i,
            first_refused_sink(raws, i as int, default_sink_level, default_sink_format, limits) is None,
            forall|j: int| 0 <= j < i ==> parsed@[j]
                == sink_outcome(raws[j], default_sink_level, default_sink_format, limits)->Ok_0,
            *logging == applied,
            default_sink_level == applied.level,
        decreases remaining.len(),
    {
        let raw = remaining.remove(0);
        assert(raw == raws[i as int]);
        match parse_file_log_sink(raw, default_sink_level, default_sink_format, limits) {
            Ok(sink) => parsed.push(sink),
            Err(e) => {
                assert(first_refused_sink(raws, i + 1, default_sink_level, default_sink_format, limits) == Some(i as int));
                proof { lemma_first_refused_extends(raws, i as int + 1, raws.len() as int, default_sink_level, default_sink_format, limits); }
                return Err(e);
            },
        }
        i = i + 1;
    }
    logging.sinks = parsed;
    Ok(())
}

/// Once one of the first `k` sinks is refused, it stays the first refused
/// among the first `n`.
proof fn lemma_first_refused_extends<L, F, R>(
    sinks: Seq<RawFileLogSink<L, F, R>>,
    k: int,
    n: int,
    default_level: L,
    default_format: F,
    limits: SinkLimits,
)
    requires
        k <= n,
        first_refused_sink(sinks, k, default_level, default_format, limits) is Some,
    ensures
        first_refused_sink(sinks, n, default_level, default_format, limits)
            == first_refused_sink(sinks, k, default_level, default_format, limits),
    decreases n - k,
{
    if n > k {
        lemma_first_refused_extends(sinks, k, n - 1, default_level, default_format, limits);
    }
}

/// Where explicit logging settings come from; these sources are never
/// merged with one another.
#[derive(Clone, Copy, Debug, PartialEq, Eq, Structural)]
pub enum ExplicitLoggingSource {
    /// The configuration file named on the command line.
    File,
    /// The level and stderr format given on the command line.
    Arguments,
    /// The process environment (which may hold none).
    Environment,
}

/// The explicit source: a named configuration file first, then direct
/// command-line settings, then the environment.
pub fn explicit_logging_source(has_config_path: bool, has_level: bool, has_stderr_format: bool) -> (s: ExplicitLoggingSource)
    ensures
        s == if has_config_path {
            ExplicitLoggingSource::File
        } else if has_level || has_stderr_format {
            ExplicitLoggingSource::Arguments
        } else {
            ExplicitLoggingSource::Environment
        },
{
    if has_config_path {
        ExplicitLoggingSource::File
    } else if has_level || has_stderr_format {
        ExplicitLoggingSource::Arguments
    } else {
        ExplicitLoggingSource::Environment
    }
}

/// The default settings with the command line's level and stderr format
/// applied, in that order; a refused setting is reported as the error.
pub fn settings_from_arguments<L, F, R>(
    defaults: LoggingSettings<L, F, R>,
    level: Option<Result<L, SettingError>>,
    stderr_format: Option<Result<F, SettingError>>,
) -> (r: Result<LoggingSettings<L, F, R>, CliError>)
    ensures
        if refusal(level) is Some {
            r matches Err(e) && reports(e, refusal(level)->0)
        } else if refusal(stderr_format) is Some {
            r matches Err(e) && reports(e, refusal(stderr_format)->0)
        } else {
            r == Ok::<LoggingSettings<L, F, R>, CliError>(LoggingSettings {
                level: or_default(level, defaults.level),
                stderr_format: or_default(stderr_format, defaults.stderr_format),
                ..defaults
            })
        },
{
    let mut config = defaults;
    match level {
        Some(Ok(l)) => config.level = l,
        Some(Err(e)) => return Err(logging_parse_error(e)),
        None => {},
    }
    match stderr_format {
        Some(Ok(f)) => config.stderr_format = f,
        Some(Err(e)) => return Err(logging_parse_error(e)),
        None => {},
    }
    Ok(config)
}

} // verus!
