//! Where the log goes, and what can go wrong when it is set up.

use vstd::prelude::*;
use vstd::string::*;

verus! {

/// Why the log could not be set up. The messages come from the system.
#[derive(Debug, Clone, PartialEq, Eq)]
pub enum LoggerError {
    Subscriber(String),
    LogFile(String),
    Journald(String),
}

/// The meaning of a `LoggerError`.
pub enum LoggerFault {
    Subscriber(Seq<char>),
    LogFile(Seq<char>),
    Journald(Seq<char>),
}

impl View for LoggerError {
    type V = LoggerFault;

    open spec fn view(&self) -> LoggerFault {
        match *self {
            LoggerError::Subscriber(m) => LoggerFault::Subscriber(m@),
            LoggerError::LogFile(m) => LoggerFault::LogFile(m@),
            LoggerError::Journald(m) => LoggerFault::Journald(m@),
        }
    }
}

impl LoggerFault {
    /// The message for the user.
    pub open spec fn text(self) -> Seq<char> {
        match self {
            LoggerFault::Subscriber(m) => "failed to install tracing subscriber: "@ + m,
            LoggerFault::LogFile(m) => "failed to open log file: "@ + m,
            LoggerFault::Journald(m) => "failed to connect to journald: "@ + m,
        }
    }
}

impl LoggerError {
    /// The message for the user.
    pub fn describe(&self) -> (r: String)
        ensures
            r@ == self@.text(),
    {
        let (what, cause): (&'static str, &String) = match self {
            LoggerError::Subscriber(m) => ("failed to install tracing subscriber: ", m),
            LoggerError::LogFile(m) => ("failed to open log file: ", m),
            LoggerError::Journald(m) => ("failed to connect to journald: ", m),
        };
        let mut r: String = what.to_string();
        r.append(cause.as_str());
        r
    }
}

/// The places that the log goes to.
#[derive(Debug, Clone, Copy, PartialEq, Eq, Structural)]
pub struct Sinks {
    pub journald: bool,
    pub file: bool,
    pub stderr: bool,
}

/// Where the log goes: to journald where it is there and to stderr where it is not,
/// and to a file besides where one is configured.
pub open spec fn sinks_of(journald_available: bool, log_file_configured: bool) -> Sinks {
    Sinks {
        journald: journald_available,
        file: log_file_configured,
        stderr: !journald_available,
    }
}

/// Chooses where the log goes.
pub fn sinks(journald_available: bool, log_file_configured: bool) -> (r: Sinks)
    ensures
        r == sinks_of(journald_available, log_file_configured),
{
    Sinks {
        journald: journald_available,
        file: log_file_configured,
        stderr: !journald_available,
    }
}

/// Sets up the log, given what opening the configured file gave (nothing where
/// none is configured), and what installing the sinks gave.
pub fn init(opened: Option<Result<(), String>>, installed: Result<(), String>) -> (r: Result<
    (),
    LoggerError,
>)
    ensures
        match (opened, installed) {
            (Some(Err(m)), _) => r matches Err(e) && e@ == LoggerFault::LogFile(m@),
            (_, Err(m)) => r matches Err(e) && e@ == LoggerFault::Subscriber(m@),
            (_, Ok(())) => r is Ok,
        },
{
    match opened {
        Some(Err(m)) => return Err(LoggerError::LogFile(m)),
        _ => {},
    }
    match installed {
        Err(m) => Err(LoggerError::Subscriber(m)),
        Ok(()) => Ok(()),
    }
}

/// The log is never lost: it always goes to journald or to stderr, and never to
/// both.
pub proof fn log_has_one_main_sink(journald_available: bool, log_file_configured: bool)
    ensures
        sinks_of(journald_available, log_file_configured).journald != sinks_of(
            journald_available,
            log_file_configured,
        ).stderr,
{
}

/// Each sink is used exactly where it is wanted: journald where it is there, stderr
/// where journald is not, and a file where one is configured.
pub proof fn log_goes_where_it_is_wanted(journald_available: bool, log_file_configured: bool)
    ensures
        sinks_of(journald_available, log_file_configured).journald <==> journald_available,
        sinks_of(journald_available, log_file_configured).stderr <==> !journald_available,
        sinks_of(journald_available, log_file_configured).file <==> log_file_configured,
{
}

} // verus!
