use vstd::prelude::*;
use crate::text::{chars_of, contains_chars, contains_text, same_chars, string_of};

verus! {

/// What a failed storage statement reported.
#[derive(Debug)]
pub struct DatabaseFailure {
    /// The storage engine's own error code, if it gave one.
    pub code: Option<String>,
    pub message: String,
}

/// The kinds of failure that reach the user of the bot.
#[derive(Debug)]
pub enum BotError {
    TaskExists,
    TaskNotFound,
    XaiServiceError,
    /// A storage failure; `None` where it did not come from the storage engine.
    DatabaseError(Option<DatabaseFailure>),
    TelegramError,
    InvalidParameters,
    DateParseError,
    Other,
    PermissionDenied,
}

pub open spec fn task_exists_message() -> Seq<char> {
    "\u{201a}\u{f9}\u{e5} A task with this name already exists\\. Please choose a different name\\."@
}

/// A storage failure that is a violation of the unique task name.
pub open spec fn is_duplicate_failure(f: Option<DatabaseFailure>) -> bool {
    match f {
        Some(d) => (match d.code {
            Some(c) => c@ == "1555"@,
            None => false,
        }) || contains_text(d.message@, "UNIQUE constraint failed"@),
        None => false,
    }
}

/// The message shown to the user for each kind of failure; internal detail
/// never appears in it.
pub open spec fn user_message_of(e: BotError) -> Seq<char> {
    match e {
        BotError::TaskExists => task_exists_message(),
        BotError::TaskNotFound => "\u{201a}\u{f9}\u{e5} Task not found\\. Use /list to see all available tasks\\."@,
        BotError::XaiServiceError => "\u{201a}\u{f9}\u{e5} Unable to reach X\\.AI service\\. Please try again later\\."@,
        BotError::DatabaseError(f) => if is_duplicate_failure(f) {
            task_exists_message()
        } else {
            "\u{201a}\u{f9}\u{e5} Unable to process your request\\. Please try again later\\."@
        },
        BotError::TelegramError => "\u{201a}\u{f9}\u{e5} Unable to send message\\. Please try again later\\."@,
        BotError::InvalidParameters => "\u{201a}\u{f9}\u{e5} Invalid parameters provided\\. Please check the command format and try again\\."@,
        BotError::DateParseError => "\u{201a}\u{f9}\u{e5} Error processing date information\\. Please try again later\\."@,
        BotError::Other => "\u{201a}\u{f9}\u{e5} An unexpected error occurred\\. Please try again later\\."@,
        BotError::PermissionDenied => "\u{201a}\u{f9}\u{e5} This command is restricted to the bot owner\\."@,
    }
}

fn duplicate_failure(f: &Option<DatabaseFailure>) -> (r: bool)
    ensures
        r == is_duplicate_failure(*f),
{
    match f {
        Some(d) => {
            let by_code = match &d.code {
                Some(c) => same_chars(&chars_of(c.as_str()), &chars_of("1555")),
                None => false,
            };
            by_code || contains_chars(
                &chars_of(d.message.as_str()),
                &chars_of("UNIQUE constraint failed"),
            )
        },
        None => false,
    }
}

impl BotError {
    /// The message shown to the user for this failure.
    pub fn user_message(&self) -> (r: String)
        ensures
            r@ == user_message_of(*self),
    {
        let text: &str = match self {
            BotError::TaskExists => "\u{201a}\u{f9}\u{e5} A task with this name already exists\\. Please choose a different name\\.",
            BotError::TaskNotFound => "\u{201a}\u{f9}\u{e5} Task not found\\. Use /list to see all available tasks\\.",
            BotError::XaiServiceError => "\u{201a}\u{f9}\u{e5} Unable to reach X\\.AI service\\. Please try again later\\.",
            BotError::DatabaseError(f) => if duplicate_failure(f) {
                "\u{201a}\u{f9}\u{e5} A task with this name already exists\\. Please choose a different name\\."
            } else {
                "\u{201a}\u{f9}\u{e5} Unable to process your request\\. Please try again later\\."
            },
            BotError::TelegramError => "\u{201a}\u{f9}\u{e5} Unable to send message\\. Please try again later\\.",
            BotError::InvalidParameters => "\u{201a}\u{f9}\u{e5} Invalid parameters provided\\. Please check the command format and try again\\.",
            BotError::DateParseError => "\u{201a}\u{f9}\u{e5} Error processing date information\\. Please try again later\\.",
            BotError::Other => "\u{201a}\u{f9}\u{e5} An unexpected error occurred\\. Please try again later\\.",
            BotError::PermissionDenied => "\u{201a}\u{f9}\u{e5} This command is restricted to the bot owner\\.",
        };
        string_of(&chars_of(text))
    }
}

} // verus!
