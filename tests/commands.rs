use taskbot::command::parse_create_command;
use taskbot::errors::{BotError, DatabaseFailure};

#[test]
fn test_parse_create_command() {
    let valid_input = "test_task 30 What is the weather?".to_string();
    let result = parse_create_command(valid_input);
    assert!(result.is_some());

    if let Some((name, interval, question)) = result {
        assert_eq!(name, "test_task");
        assert_eq!(interval, 30);
        assert_eq!(question, "What is the weather?");
    }

    let invalid_input = "invalid command".to_string();
    let result = parse_create_command(invalid_input);
    assert!(result.is_none());
}

#[test]
fn test_create_command_validation() {
    let valid = parse_create_command("weather 60 What's the weather like?".to_string());
    assert!(valid.is_some());
    if let Some((name, interval, question)) = valid {
        assert_eq!(name, "weather");
        assert_eq!(interval, 60);
        assert_eq!(question, "What's the weather like?");
    }

    let invalid_cases = vec![
        "weather".to_string(),
        "weather 60".to_string(),
        "weather invalid 60".to_string(),
        "".to_string(),
    ];

    for case in invalid_cases {
        assert!(parse_create_command(case).is_none());
    }
}

#[test]
fn create_command_weather_scenario() {
    let r = parse_create_command("weather 60 What's the weather?".to_string());
    assert_eq!(r, Some(("weather".to_string(), 60, "What's the weather?".to_string())));
    assert_eq!(parse_create_command("weather 60".to_string()), None);
}

#[test]
fn create_command_interval_forms() {
    assert_eq!(
        parse_create_command("a +5 q".to_string()),
        Some(("a".to_string(), 5, "q".to_string()))
    );
    assert_eq!(parse_create_command("a + q".to_string()), None);
    assert_eq!(parse_create_command("a -5 q".to_string()), None);
    assert_eq!(parse_create_command("a 0 q".to_string()), None);
    assert_eq!(parse_create_command("a 00 q".to_string()), None);
    assert_eq!(
        parse_create_command("a 01 q".to_string()),
        Some(("a".to_string(), 1, "q".to_string()))
    );
    assert_eq!(
        parse_create_command("a 18446744073709551615 q".to_string()),
        Some(("a".to_string(), u64::MAX, "q".to_string()))
    );
    assert_eq!(parse_create_command("a 18446744073709551616 q".to_string()), None);
    assert_eq!(
        parse_create_command("a 1 q with  spaces ".to_string()),
        Some(("a".to_string(), 1, "q with  spaces ".to_string()))
    );
    assert_eq!(
        parse_create_command(" 1 q".to_string()),
        Some(("".to_string(), 1, "q".to_string()))
    );
    assert_eq!(
        parse_create_command("n 1 ".to_string()),
        Some(("n".to_string(), 1, "".to_string()))
    );
}

#[test]
fn error_messages() {
    assert!(BotError::TaskExists.user_message().contains("already exists"));
    assert!(BotError::TaskNotFound.user_message().contains("Task not found"));
    assert!(BotError::XaiServiceError.user_message().contains("Unable to reach X\\.AI"));
    assert!(BotError::TelegramError.user_message().contains("Unable to send message"));
    assert!(BotError::InvalidParameters.user_message().contains("Invalid parameters"));
    assert!(BotError::DateParseError.user_message().contains("date information"));
    assert!(BotError::Other.user_message().contains("unexpected error"));
    assert!(BotError::PermissionDenied.user_message().contains("bot owner"));
    assert!(BotError::DatabaseError(None).user_message().contains("Unable to process"));
}

#[test]
fn unique_violation_reads_as_duplicate_task() {
    let by_code = BotError::DatabaseError(Some(DatabaseFailure {
        code: Some("1555".to_string()),
        message: "x".to_string(),
    }));
    assert_eq!(by_code.user_message(), BotError::TaskExists.user_message());
    let by_text = BotError::DatabaseError(Some(DatabaseFailure {
        code: None,
        message: "UNIQUE constraint failed: tasks.name".to_string(),
    }));
    assert_eq!(by_text.user_message(), BotError::TaskExists.user_message());
    let other = BotError::DatabaseError(Some(DatabaseFailure {
        code: Some("2067".to_string()),
        message: "disk I/O error".to_string(),
    }));
    assert!(other.user_message().contains("Unable to process"));
}
