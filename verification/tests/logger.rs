use tesla_fan_control::logger::{init, sinks, LoggerError, Sinks};

#[test]
fn stderr_stands_in_for_journald() {
    assert_eq!(sinks(true, false), Sinks { journald: true, file: false, stderr: false });
    assert_eq!(sinks(false, true), Sinks { journald: false, file: true, stderr: true });
}

#[test]
fn first_failure_of_the_setup_is_reported() {
    let failed = || "x".to_string();
    assert_eq!(init(None, Ok(())), Ok(()));
    assert_eq!(init(Some(Ok(())), Ok(())), Ok(()));
    assert_eq!(init(Some(Err(failed())), Ok(())), Err(LoggerError::LogFile(failed())));
    assert_eq!(init(Some(Err(failed())), Err(failed())), Err(LoggerError::LogFile(failed())));
    assert_eq!(init(Some(Ok(())), Err(failed())), Err(LoggerError::Subscriber(failed())));
    assert_eq!(init(None, Err(failed())), Err(LoggerError::Subscriber(failed())));
}

#[test]
fn logger_errors_have_messages() {
    assert_eq!(
        LoggerError::Subscriber("already set".to_string()).describe(),
        "failed to install tracing subscriber: already set"
    );
    assert_eq!(
        LoggerError::LogFile("denied".to_string()).describe(),
        "failed to open log file: denied"
    );
    assert_eq!(
        LoggerError::Journald("absent".to_string()).describe(),
        "failed to connect to journald: absent"
    );
}
