use vstd::prelude::*;
use crate::escape::{escape_markdown_v2, escaped};
use crate::reflow::{format_response_content, reflowed};
use crate::text::{chars_of, push_str, string_of};

verus! {

/// A stored task as the task list shows it.
pub struct TaskEntry {
    pub name: String,
    pub question: String,
    /// Minutes between runs.
    pub interval: i64,
    /// When the task last ran, as stored.
    pub last_run: String,
}

/// The decimal digits of `n`.
pub open spec fn digits(n: nat) -> Seq<char>
    decreases n,
{
    if n < 10 {
        seq![((n + 48) as u8) as char]
    } else {
        digits(n / 10) + seq![((n % 10 + 48) as u8) as char]
    }
}

/// `n` written in decimal, with a minus sign when negative.
pub open spec fn decimal(n: int) -> Seq<char> {
    if n < 0 {
        seq!['-'] + digits((-n) as nat)
    } else {
        digits(n as nat)
    }
}

/// The message for an answer to a task's question.
pub open spec fn task_response(name: Seq<char>, question: Seq<char>, answer: Seq<char>) -> Seq<
    char,
> {
    "\u{f8ff}\u{fc}\u{a7}\u{f1} *Task Response*\n\n\u{f8ff}\u{fc}\u{ec}\u{e5} *Task:* "@ + escaped(
        name,
        true,
    ) + "\n\u{201a}\u{f9}\u{ec} *Question:* `"@ + escaped(question, true)
        + "`\n\n\u{f8ff}\u{fc}\u{ec}\u{f9} *Answer:*\n\n"@ + reflowed(answer)
}

/// The message for an answer to a one-off question.
pub open spec fn plain_response(question: Seq<char>, answer: Seq<char>) -> Seq<char> {
    "\u{f8ff}\u{fc}\u{a7}\u{f1} *X\\.AI Response*\n\n\u{201a}\u{f9}\u{ec} *Question:* `"@ + escaped(
        question,
        true,
    ) + "`\n\n\u{f8ff}\u{fc}\u{ec}\u{f9} *Answer:*\n\n"@ + reflowed(answer)
}

pub open spec fn help_text() -> Seq<char> {
    "*Available Commands:*\n\n\u{f8ff}\u{fc}\u{ec}\u{e5} */help* \\- Show this help message\n\n\u{f8ff}\u{fc}\u{ec}\u{f9} */create* \\<name\\> \\<interval\\_minutes\\> \\<question\\>\nCreates a recurring X\\.AI query task\nExample: `/create weather 60 What's the weather in New York?`\n\n\u{f8ff}\u{fc}\u{ec}\u{e3} */list* \\- Show all active tasks\n\n\u{f8ff}\u{fc}\u{f3}\u{eb} */delete* \\<name\\> \\- Remove a task\n\n\u{201a}\u{f9}\u{ec} */ask* \\<question\\> \\- Ask X\\.AI a one\\-time question"@
}

pub open spec fn empty_list_text() -> Seq<char> {
    "\u{f8ff}\u{fc}\u{ec}\u{2260} *No tasks found*"@
}

pub open spec fn task_entry_text(t: TaskEntry) -> Seq<char> {
    "\u{f8ff}\u{fc}\u{ee}\u{2211} *Task:* "@ + escaped(t.name@, true)
        + "\n\u{f8ff}\u{fc}\u{ec}\u{f9} *Question:* `"@ + escaped(t.question@, true)
        + "`\n\u{201a}\u{e8}\u{b1} *Interval:* "@ + decimal(t.interval as int)
        + " minutes\n\u{f8ff}\u{fc}\u{ef}\u{ed} *Last run:* _"@ + escaped(t.last_run@, true)
        + "_\n\n"@
}

/// The heading of a task list followed by one block per task, in order.
pub open spec fn task_blocks(ts: Seq<TaskEntry>) -> Seq<char>
    decreases ts.len(),
{
    if ts.len() == 0 {
        "*\u{f8ff}\u{fc}\u{ec}\u{e3} Active Tasks:*\n\n"@
    } else {
        task_blocks(ts.drop_last()) + task_entry_text(ts.last())
    }
}

pub open spec fn task_list_text(ts: Seq<TaskEntry>) -> Seq<char> {
    if ts.len() == 0 {
        empty_list_text()
    } else {
        task_blocks(ts)
    }
}

pub open spec fn created_text(name: Seq<char>, question: Seq<char>, interval: u64) -> Seq<char> {
    "\u{201a}\u{fa}\u{d6} *Task Created Successfully*\n\n\u{f8ff}\u{fc}\u{ec}\u{e5} *Name:* "@
        + escaped(name, true) + "\n\u{201a}\u{f9}\u{ec} *Question:* `"@ + escaped(question, true)
        + "`\n\u{201a}\u{e8}\u{b1} *Interval:* "@ + digits(interval as nat)
        + " minutes\n\n\u{f8ff}\u{fc}\u{ee}\u{d1} First response coming shortly\\.\\.\\."@
}

pub open spec fn deleted_text(name: Seq<char>) -> Seq<char> {
    "\u{201a}\u{fa}\u{d6} Task *"@ + escaped(name, true) + "* deleted successfully"@
}

fn push_digits(out: &mut Vec<char>, n: u64)
    ensures
        final(out)@ == old(out)@ + digits(n as nat),
    decreases n,
{
    if n >= 10 {
        push_digits(out, n / 10);
    }
    out.push(((n % 10) as u8 + 48u8) as char);
}

fn push_decimal(out: &mut Vec<char>, n: i64)
    ensures
        final(out)@ == old(out)@ + decimal(n as int),
{
    if n < 0 {
        out.push('-');
        let m: u64 = (-(n as i128)) as u64;
        push_digits(out, m);
    } else {
        push_digits(out, n as u64);
    }
}

fn push_escaped_text(out: &mut Vec<char>, s: &str)
    ensures
        final(out)@ == old(out)@ + escaped(s@, true),
{
    let e = escape_markdown_v2(s);
    push_str(out, e.as_str());
}

/// Renders an answer as a message: with a task name, as a task's response, or
/// else as the response to a one-off question.
pub fn format_xai_response(task_name: Option<&str>, question: &str, response: &str) -> (r: String)
    ensures
        r@ == match task_name {
            Some(name) => task_response(name@, question@, response@),
            None => plain_response(question@, response@),
        },
        r@.len() > 0,
{
    let mut out: Vec<char> = Vec::new();
    match task_name {
        Some(name) => {
            push_str(
                &mut out,
                "\u{f8ff}\u{fc}\u{a7}\u{f1} *Task Response*\n\n\u{f8ff}\u{fc}\u{ec}\u{e5} *Task:* ",
            );
            push_escaped_text(&mut out, name);
            push_str(&mut out, "\n\u{201a}\u{f9}\u{ec} *Question:* `");
        },
        None => {
            push_str(
                &mut out,
                "\u{f8ff}\u{fc}\u{a7}\u{f1} *X\\.AI Response*\n\n\u{201a}\u{f9}\u{ec} *Question:* `",
            );
        },
    }
    push_escaped_text(&mut out, question);
    push_str(&mut out, "`\n\n\u{f8ff}\u{fc}\u{ec}\u{f9} *Answer:*\n\n");
    proof {
        reveal_strlit("`\n\n\u{f8ff}\u{fc}\u{ec}\u{f9} *Answer:*\n\n");
    }
    let body = format_response_content(response);
    push_str(&mut out, body.as_str());
    string_of(&out)
}

/// The list of commands the bot understands.
pub fn format_help_message() -> (r: String)
    ensures
        r@ == help_text(),
{
    string_of(
        &chars_of(
            "*Available Commands:*\n\n\u{f8ff}\u{fc}\u{ec}\u{e5} */help* \\- Show this help message\n\n\u{f8ff}\u{fc}\u{ec}\u{f9} */create* \\<name\\> \\<interval\\_minutes\\> \\<question\\>\nCreates a recurring X\\.AI query task\nExample: `/create weather 60 What's the weather in New York?`\n\n\u{f8ff}\u{fc}\u{ec}\u{e3} */list* \\- Show all active tasks\n\n\u{f8ff}\u{fc}\u{f3}\u{eb} */delete* \\<name\\> \\- Remove a task\n\n\u{201a}\u{f9}\u{ec} */ask* \\<question\\> \\- Ask X\\.AI a one\\-time question",
        ),
    )
}

/// Lists the given tasks, one block each, or says that there are none.
pub fn format_task_list(tasks: &[TaskEntry]) -> (r: String)
    ensures
        r@ == task_list_text(tasks@),
{
    if tasks.len() == 0 {
        return string_of(&chars_of("\u{f8ff}\u{fc}\u{ec}\u{2260} *No tasks found*"));
    }
    let mut out: Vec<char> = Vec::new();
    push_str(&mut out, "*\u{f8ff}\u{fc}\u{ec}\u{e3} Active Tasks:*\n\n");
    let mut k: usize = 0;
    while k < tasks.len()
        invariant
            k <= tasks.len(),
            out@ == task_blocks(tasks@.take(k as int)),
        decreases tasks.len() - k,
    {
        let t = &tasks[k];
        assert(tasks@.take(k + 1).drop_last() == tasks@.take(k as int));
        push_str(&mut out, "\u{f8ff}\u{fc}\u{ee}\u{2211} *Task:* ");
        push_escaped_text(&mut out, t.name.as_str());
        push_str(&mut out, "\n\u{f8ff}\u{fc}\u{ec}\u{f9} *Question:* `");
        push_escaped_text(&mut out, t.question.as_str());
        push_str(&mut out, "`\n\u{201a}\u{e8}\u{b1} *Interval:* ");
        push_decimal(&mut out, t.interval);
        push_str(&mut out, " minutes\n\u{f8ff}\u{fc}\u{ef}\u{ed} *Last run:* _");
        push_escaped_text(&mut out, t.last_run.as_str());
        push_str(&mut out, "_\n\n");
        k = k + 1;
    }
    assert(tasks@.take(tasks.len() as int) == tasks@);
    string_of(&out)
}

/// Confirms a newly created task.
pub fn format_created_message(name: &str, question: &str, interval: u64) -> (r: String)
    ensures
        r@ == created_text(name@, question@, interval),
{
    let mut out: Vec<char> = Vec::new();
    push_str(
        &mut out,
        "\u{201a}\u{fa}\u{d6} *Task Created Successfully*\n\n\u{f8ff}\u{fc}\u{ec}\u{e5} *Name:* ",
    );
    push_escaped_text(&mut out, name);
    push_str(&mut out, "\n\u{201a}\u{f9}\u{ec} *Question:* `");
    push_escaped_text(&mut out, question);
    push_str(&mut out, "`\n\u{201a}\u{e8}\u{b1} *Interval:* ");
    push_digits(&mut out, interval);
    push_str(
        &mut out,
        " minutes\n\n\u{f8ff}\u{fc}\u{ee}\u{d1} First response coming shortly\\.\\.\\.",
    );
    string_of(&out)
}

/// Confirms a deleted task.
pub fn format_deleted_message(name: &str) -> (r: String)
    ensures
        r@ == deleted_text(name@),
{
    let mut out: Vec<char> = Vec::new();
    push_str(&mut out, "\u{201a}\u{fa}\u{d6} Task *");
    push_escaped_text(&mut out, name);
    push_str(&mut out, "* deleted successfully");
    string_of(&out)
}

} // verus!
