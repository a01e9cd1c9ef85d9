use vstd::prelude::*;
use crate::errors::BotError;
use crate::text::{chars_of, string_of};

verus! {

/// What a reply body of the answer service holds at
/// `choices[0].message.content`: `None` where the body is not JSON, `Some(None)`
/// where no string stands there.
pub uninterp spec fn reply_content(body: Seq<char>) -> Option<Option<Seq<char>>>;

/// Relies on `serde_json::from_str::<Value>` to read the body, on `Value`'s
/// indexing (which yields `Null` for a missing key or index) and on
/// `Value::as_str`; the result depends on the body alone.
#[verifier::external_body]
fn content_of_reply(body: &str) -> (r: Option<Option<String>>)
    ensures
        match r {
            Some(Some(s)) => reply_content(body@) == Some(Some(s@)),
            Some(None) => reply_content(body@) == Some(None::<Seq<char>>),
            None => reply_content(body@) is None,
        },
{
    let v = serde_json::from_str::<serde_json::Value>(body).ok()?;
    Some(v["choices"][0]["message"]["content"].as_str().map(String::from))
}

pub open spec fn no_answer_text() -> Seq<char> {
    "No response received"@
}

/// The answer in a reply body of the answer service; a body without one gives
/// a fixed notice, and a body that is not JSON a service error.
pub fn answer_from_reply(body: &str) -> (r: Result<String, BotError>)
    ensures
        match reply_content(body@) {
            Some(Some(s)) => r is Ok && r->Ok_0@ == s,
            Some(None) => r is Ok && r->Ok_0@ == no_answer_text(),
            None => r is Err && r->Err_0 is XaiServiceError,
        },
{
    match content_of_reply(body) {
        Some(Some(s)) => Ok(s),
        Some(None) => Ok(string_of(&chars_of("No response received"))),
        None => Err(BotError::XaiServiceError),
    }
}

} // verus!
