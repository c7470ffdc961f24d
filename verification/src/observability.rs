//! Logging, metrics and alerting settings.

use vstd::prelude::*;

verus! {

/// Observability configuration combining logging, metrics, and alerts.
#[derive(Debug, Clone)]
pub struct ObservabilityConfig {
    /// Log level for the application
    pub log_level: LogLevel,
    /// Metrics configuration
    pub metrics: Option<MetricsConfig>,
    /// Alert configuration
    pub alerts: Option<AlertConfig>,
}

impl Default for ObservabilityConfig {
    fn default() -> (r: Self)
        ensures
            r.log_level == LogLevel::Info,
            r.metrics is None,
            r.alerts is None,
    {
        ObservabilityConfig { log_level: LogLevel::Info, metrics: None, alerts: None }
    }
}

/// Log level for the application, from most to least verbose.
#[derive(Debug, Clone, Copy, PartialEq, Eq, Structural)]
pub enum LogLevel {
    /// Trace level (most verbose)
    Trace,
    /// Debug level
    Debug,
    /// Info level
    Info,
    /// Warn level
    Warn,
    /// Error level
    Error,
}

impl Default for LogLevel {
    fn default() -> (r: Self)
        ensures
            r == LogLevel::Info,
    {
        LogLevel::Info
    }
}

/// The verbosity rank of a level: lower is more verbose.
pub open spec fn level_rank(level: LogLevel) -> nat {
    match level {
        LogLevel::Trace => 0,
        LogLevel::Debug => 1,
        LogLevel::Info => 2,
        LogLevel::Warn => 3,
        LogLevel::Error => 4,
    }
}

/// Whether a logger set to `level` emits messages of level `other`.
pub open spec fn level_includes(level: LogLevel, other: LogLevel) -> bool {
    level_rank(level) <= level_rank(other)
}

impl LogLevel {
    /// Numeric representation (lower = more verbose).
    pub fn as_u8(&self) -> (r: u8)
        ensures
            r == level_rank(*self),
    {
        match self {
            LogLevel::Trace => 0,
            LogLevel::Debug => 1,
            LogLevel::Info => 2,
            LogLevel::Warn => 3,
            LogLevel::Error => 4,
        }
    }

    /// Whether this level includes the given level (it is at least as verbose).
    pub fn includes(&self, other: LogLevel) -> (r: bool)
        ensures
            r == level_includes(*self, other),
    {
        self.as_u8() <= other.as_u8()
    }

    /// Human-readable name.
    pub fn display_name(&self) -> (r: &'static str)
        ensures
            r@ == match *self {
                LogLevel::Trace => "Trace"@,
                LogLevel::Debug => "Debug"@,
                LogLevel::Info => "Info"@,
                LogLevel::Warn => "Warning"@,
                LogLevel::Error => "Error"@,
            },
    {
        match self {
            LogLevel::Trace => "Trace",
            LogLevel::Debug => "Debug",
            LogLevel::Info => "Info",
            LogLevel::Warn => "Warning",
            LogLevel::Error => "Error",
        }
    }
}

/// Levels are ordered by verbosity: `includes` is reflexive, transitive and
/// total, and two levels that include each other are the same level.
pub proof fn lemma_level_order(a: LogLevel, b: LogLevel, c: LogLevel)
    ensures
        level_includes(a, a),
        level_includes(a, b) && level_includes(b, c) ==> level_includes(a, c),
        level_includes(a, b) || level_includes(b, a),
        level_includes(a, b) && level_includes(b, a) ==> a == b,
{
}

/// Every level includes the error level, and only the trace level includes
/// every level.
pub proof fn lemma_level_extremes(a: LogLevel)
    ensures
        level_includes(a, LogLevel::Error),
        level_includes(LogLevel::Trace, a),
        level_includes(a, LogLevel::Trace) ==> a == LogLevel::Trace,
{
}

/// Metrics collection configuration.
#[derive(Debug, Clone)]
pub struct MetricsConfig {
    /// CloudWatch namespace for metrics (AWS-specific)
    pub namespace: String,
    /// Enable metrics collection
    pub enabled: bool,
}

/// Whether metrics are collected when a configuration leaves it out: yes.
pub fn default_enabled() -> (r: bool)
    ensures
        r == true,
{
    true
}

/// Alert configuration.
#[derive(Debug, Clone)]
pub struct AlertConfig {
    /// Email address for alert notifications
    pub email: Option<String>,
    /// AWS SNS Topic ARN for alert notifications
    pub sns_topic_arn: Option<String>,
}

} // verus!
