use taskbot::errors::BotError;
use taskbot::service::answer_from_reply;

#[test]
fn reply_content_is_extracted() {
    let body = r#"{"choices":[{"message":{"role":"assistant","content":"BTC is $50,000"}}]}"#;
    assert_eq!(answer_from_reply(body).unwrap(), "BTC is $50,000");
}

#[test]
fn reply_without_content_gives_notice() {
    assert_eq!(answer_from_reply(r#"{"choices":[]}"#).unwrap(), "No response received");
    assert_eq!(
        answer_from_reply(r#"{"choices":[{"message":{"content":7}}]}"#).unwrap(),
        "No response received"
    );
}

#[test]
fn reply_that_is_not_json_is_a_service_error() {
    assert!(matches!(answer_from_reply("<html>"), Err(BotError::XaiServiceError)));
}
