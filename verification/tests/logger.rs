use dbdump::logger::{LogLevel, Logger};

fn line() -> String {
    "something happened".to_string()
}

#[test]
fn debug_level_writes_everything() {
    let level = LogLevel { logger: Logger::DEBUG };
    assert_eq!(Logger::error(&level, line()), Some(line()));
    assert_eq!(Logger::warn(&level, line()), Some(line()));
    assert_eq!(Logger::info(&level, line()), Some(line()));
    assert_eq!(Logger::debug(&level, line()), Some(line()));
}

#[test]
fn info_level_drops_debugging_notes() {
    let level = LogLevel { logger: Logger::INFO };
    assert_eq!(Logger::error(&level, line()), Some(line()));
    assert_eq!(Logger::warn(&level, line()), Some(line()));
    assert_eq!(Logger::info(&level, line()), Some(line()));
    assert_eq!(Logger::debug(&level, line()), None);
}

#[test]
fn warn_level_drops_information() {
    let level = LogLevel { logger: Logger::WARN };
    assert_eq!(Logger::error(&level, line()), Some(line()));
    assert_eq!(Logger::warn(&level, line()), Some(line()));
    assert_eq!(Logger::info(&level, line()), None);
    assert_eq!(Logger::debug(&level, line()), None);
}

#[test]
fn error_level_writes_errors_alone() {
    let level = LogLevel { logger: Logger::ERROR };
    assert_eq!(Logger::error(&level, line()), Some(line()));
    assert_eq!(Logger::warn(&level, line()), None);
    assert_eq!(Logger::info(&level, line()), None);
    assert_eq!(Logger::debug(&level, line()), None);
}
