use taskbot::schedule::{due_tasks, is_due, next_last_run, task_due, RunOutcome, ScheduledTask, Timestamp};
use taskbot::errors::BotError;
use taskbot::session::{ConnectAction, RetrySession};

fn at(secs: i64) -> Timestamp {
    Timestamp { secs, nanos: 0 }
}

fn task(name: &str, interval: i64, last_run: &str) -> ScheduledTask {
    ScheduledTask {
        name: name.to_string(),
        question: "q".to_string(),
        interval,
        last_run: last_run.to_string(),
        chat_id: 1,
    }
}

#[test]
fn test_task_scheduling() {
    let now = chrono::Utc::now();
    let last_run = (now - chrono::Duration::minutes(2)).to_rfc3339();
    let now_ts = Timestamp { secs: now.timestamp(), nanos: now.timestamp_subsec_nanos() };
    assert!(task_due(&last_run, now_ts, 1).unwrap());
}

#[test]
fn due_scenarios() {
    let now = at(1_700_000_000);
    assert!(is_due(at(1_700_000_000 - 120), now, 1));
    assert!(!is_due(at(1_700_000_000 - 60), now, 60));
}

#[test]
fn due_check_is_repeatable() {
    let now = at(1_000_000);
    let last = Timestamp { secs: 1_000_000 - 119, nanos: 500 };
    let first = is_due(last, now, 2);
    let second = is_due(last, now, 2);
    assert_eq!(first, second);
    assert!(!first);
}

#[test]
fn elapsed_minutes_truncate() {
    let now = Timestamp { secs: 600, nanos: 0 };
    assert!(is_due(Timestamp { secs: 540, nanos: 0 }, now, 1));
    assert!(!is_due(Timestamp { secs: 540, nanos: 1 }, now, 1));
    assert!(!is_due(at(700), now, 0));
    assert!(is_due(at(700), now, -1));
    assert!(!is_due(at(720), now, -1));
    assert!(is_due(at(i64::MIN), at(i64::MAX), i64::MAX) == false);
}

#[test]
fn stored_timestamps_are_read() {
    let now = Timestamp { secs: 1_708_430_400 + 3600, nanos: 0 };
    assert!(task_due("2024-02-20T12:00:00Z", now, 60).unwrap());
    assert!(!task_due("2024-02-20T12:00:00Z", now, 61).unwrap());
    assert!(task_due("2024-02-20T13:00:00+01:00", now, 60).unwrap());
    assert!(matches!(task_due("not a date", now, 1), Err(BotError::DateParseError)));
    assert!(matches!(
        task_due("2024-02-20T12:00:00Z", now, 0),
        Err(BotError::InvalidParameters)
    ));
}

#[test]
fn due_tasks_skip_unreadable() {
    let now = Timestamp { secs: 1_708_430_400 + 3600, nanos: 0 };
    let tasks = vec![
        task("a", 30, "2024-02-20T12:00:00Z"),
        task("b", 30, "garbage"),
        task("c", 120, "2024-02-20T12:00:00Z"),
        task("d", 1, "2024-02-20T12:58:00Z"),
    ];
    let plan = due_tasks(&tasks, now);
    assert_eq!(plan.due, vec![0, 3]);
    assert_eq!(plan.skipped, vec![1]);
    let empty = due_tasks(&[], now);
    assert!(empty.due.is_empty() && empty.skipped.is_empty());
}

#[test]
fn watermark_moves_only_on_delivery() {
    let now = at(42);
    assert_eq!(next_last_run(RunOutcome::Delivered, now), Some(now));
    assert_eq!(next_last_run(RunOutcome::AnswerFailed, now), None);
    assert_eq!(next_last_run(RunOutcome::DeliveryFailed, now), None);
}

#[test]
fn connector_gives_up_after_max_attempts() {
    let mut s = RetrySession::new(3);
    assert_eq!(s.on_probe(false), ConnectAction::RetryAfterDelay);
    assert_eq!(s.on_probe(false), ConnectAction::RetryAfterDelay);
    assert_eq!(s.on_probe(false), ConnectAction::GiveUp);
    assert_eq!(s.attempt_count, 3);
}

#[test]
fn connector_resets_on_success() {
    let mut s = RetrySession::new(5);
    assert_eq!(s.on_probe(false), ConnectAction::RetryAfterDelay);
    assert_eq!(s.on_probe(true), ConnectAction::Serve);
    assert_eq!(s.attempt_count, 0);
    let mut z = RetrySession::new(0);
    assert_eq!(z.on_probe(false), ConnectAction::GiveUp);
}

#[test]
fn due_task_stays_due_later() {
    let last = at(0);
    assert!(is_due(last, at(300), 5));
    assert!(is_due(last, at(3000), 5));
    assert!(!is_due(last, at(299), 5));
}

#[test]
fn non_positive_interval_is_skipped() {
    let now = Timestamp { secs: 1_708_430_400 + 3600, nanos: 0 };
    let tasks = vec![
        task("zero", 0, "2024-02-20T12:00:00Z"),
        task("future", 0, "2024-02-21T12:00:00Z"),
        task("ok", 60, "2024-02-20T12:00:00Z"),
    ];
    let plan = due_tasks(&tasks, now);
    assert_eq!(plan.due, vec![2]);
    assert_eq!(plan.skipped, vec![0, 1]);
}

fn instant(text: &str) -> Timestamp {
    let d = text.parse::<chrono::DateTime<chrono::Utc>>().unwrap();
    Timestamp { secs: d.timestamp(), nanos: d.timestamp_subsec_nanos() }
}

#[test]
fn leap_second_counts_as_chrono_counts_it() {
    let now = instant("2015-06-30T12:01:59Z");
    assert!(task_due("2015-06-30T12:00:60Z", now, 1).unwrap());
    assert!(!task_due("2015-06-30T12:00:60.5Z", now, 1).unwrap());
    let pairs = [
        ("2015-06-30T12:00:60Z", "2015-06-30T12:01:59Z"),
        ("2015-06-30T23:59:60.5Z", "2015-07-01T00:00:59Z"),
        ("2015-06-30T23:59:59Z", "2015-06-30T23:59:60.9Z"),
        ("2015-07-01T00:01:00Z", "2015-06-30T23:59:60.2Z"),
        ("2024-02-20T12:00:00.7Z", "2024-02-20T12:03:00.1Z"),
        ("2024-02-20T12:05:00Z", "2024-02-20T12:03:00.1Z"),
    ];
    for (last, at) in pairs {
        let l = last.parse::<chrono::DateTime<chrono::Utc>>().unwrap();
        let n = at.parse::<chrono::DateTime<chrono::Utc>>().unwrap();
        let minutes = n.signed_duration_since(l).num_minutes();
        for interval in [-3i64, -2, -1, 0, 1, 2, 3] {
            assert_eq!(is_due(instant(last), instant(at), interval), minutes >= interval);
        }
    }
}
