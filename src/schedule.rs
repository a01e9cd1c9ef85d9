use vstd::prelude::*;
use crate::errors::BotError;
use vstd::arithmetic::div_mod::{lemma_basic_div, lemma_div_is_ordered, lemma_div_pos_is_pos};

verus! {

/// Seconds between two polls of the task store.
pub const POLL_INTERVAL_SECS: u64 = 60;

/// An instant as seconds since the Unix epoch and the nanoseconds past that second.
#[derive(Clone, Copy, Debug, PartialEq, Eq, Structural)]
pub struct Timestamp {
    pub secs: i64,
    /// At least one second's worth only during a leap second.
    pub nanos: u32,
}

/// A stored task as the scheduler reads it.
pub struct ScheduledTask {
    pub name: String,
    pub question: String,
    /// Minutes between runs.
    pub interval: i64,
    /// When the task last ran, as stored (RFC 3339).
    pub last_run: String,
    pub chat_id: i64,
}

/// How one run of a due task ended.
#[derive(Clone, Copy, Debug, PartialEq, Eq, Structural)]
pub enum RunOutcome {
    AnswerFailed,
    DeliveryFailed,
    Delivered,
}

/// The seconds and nanoseconds of the instant that chrono reads from a text.
pub uninterp spec fn rfc3339_instant(s: Seq<char>) -> Option<(int, int)>;

/// Reads an RFC 3339 timestamp.
///
/// Relies on chrono's `FromStr for DateTime<Utc>` (which accepts RFC 3339, with
/// `T` or a space between date and time), with `DateTime::timestamp` and
/// `DateTime::timestamp_subsec_nanos`: the result depends on the text alone, and
/// the nanoseconds exceed 999,999,999 only in a leap second.
#[verifier::external_body]
fn parse_timestamp(s: &str) -> (r: Option<Timestamp>)
    ensures
        match r {
            Some(t) => rfc3339_instant(s@) == Some((t.secs as int, t.nanos as int)) && t.nanos
                < 2_000_000_000,
            None => rfc3339_instant(s@) is None,
        },
{
    s.parse::<chrono::DateTime<chrono::Utc>>().ok().map(
        |d| Timestamp { secs: d.timestamp(), nanos: d.timestamp_subsec_nanos() },
    )
}

pub open spec fn nanos_per_minute() -> int {
    60_000_000_000
}

/// The second within its UTC day of the instant `secs` seconds after the epoch.
pub open spec fn second_of_day(secs: int) -> int {
    if secs >= 0 {
        secs % 86400
    } else {
        let m = (-secs) % 86400;
        if m == 0 {
            0
        } else {
            86400 - m
        }
    }
}

/// A leap second between the instant `(secs, nanos)` and `now`, counted as chrono
/// counts it: a last run inside a leap second adds it when `now` falls later in
/// its day, and a `now` inside a leap second takes it away when the last run
/// falls later in its day.
pub open spec fn leap_nanos(secs: int, nanos: int, now: Timestamp) -> int {
    if second_of_day(now.secs as int) > second_of_day(secs) && nanos >= 1_000_000_000 {
        1_000_000_000
    } else if second_of_day(now.secs as int) < second_of_day(secs) && now.nanos >= 1_000_000_000 {
        -1_000_000_000
    } else {
        0
    }
}

/// The nanoseconds from the instant `(secs, nanos)` to `now`.
pub open spec fn elapsed_nanos(secs: int, nanos: int, now: Timestamp) -> int {
    (now.secs - secs) * 1_000_000_000 + (now.nanos - nanos) + leap_nanos(secs, nanos, now)
}

/// Whole minutes in `n` nanoseconds, truncated toward zero.
pub open spec fn whole_minutes(n: int) -> int {
    if n >= 0 {
        n / nanos_per_minute()
    } else {
        -((-n) / nanos_per_minute())
    }
}

/// A task that last ran at `(secs, nanos)` is due at `now` once the whole minutes
/// since then reach its interval.
pub open spec fn due(secs: int, nanos: int, now: Timestamp, interval: int) -> bool {
    whole_minutes(elapsed_nanos(secs, nanos, now)) >= interval
}

/// The verdict for a task whose last run is stored as `text`: `None` where the
/// text is not a timestamp.
pub open spec fn due_by_text(text: Seq<char>, now: Timestamp, interval: int) -> Option<bool> {
    match rfc3339_instant(text) {
        Some(t) => Some(due(t.0, t.1, now, interval)),
        None => None,
    }
}

/// A task that the scheduler can judge: its interval is positive and its last
/// run can be read.
pub open spec fn judgeable(t: ScheduledTask) -> bool {
    t.interval >= 1 && rfc3339_instant(t.last_run@) is Some
}

/// The positions, in order, of the tasks that are due at `now`; tasks that
/// cannot be judged are left out.
pub open spec fn due_positions(ts: Seq<ScheduledTask>, now: Timestamp) -> Seq<int>
    decreases ts.len(),
{
    if ts.len() == 0 {
        Seq::empty()
    } else {
        let prev = due_positions(ts.drop_last(), now);
        let t = ts.last();
        if t.interval >= 1 && due_by_text(t.last_run@, now, t.interval as int) == Some(true) {
            prev.push(ts.len() - 1)
        } else {
            prev
        }
    }
}

/// The positions, in order, of the tasks that cannot be judged.
pub open spec fn skipped_positions(ts: Seq<ScheduledTask>) -> Seq<int>
    decreases ts.len(),
{
    if ts.len() == 0 {
        Seq::empty()
    } else {
        let prev = skipped_positions(ts.drop_last());
        if judgeable(ts.last()) {
            prev
        } else {
            prev.push(ts.len() - 1)
        }
    }
}

/// The last run of `t` lies in an earlier second than `now`.
pub open spec fn ran_before(t: ScheduledTask, now: Timestamp) -> bool {
    match rfc3339_instant(t.last_run@) {
        Some(x) => x.0 < now.secs,
        None => false,
    }
}

/// The tasks of one poll cycle, by position in the store's order.
pub struct CyclePlan {
    /// The tasks to run now.
    pub due: Vec<usize>,
    /// The tasks passed over: a non-positive interval or an unreadable last run.
    pub skipped: Vec<usize>,
}

fn second_of_day_of(secs: i64) -> (r: i64)
    ensures
        r == second_of_day(secs as int),
{
    if secs >= 0 {
        secs % 86400
    } else {
        let m: i128 = (-(secs as i128)) % 86400;
        if m == 0 {
            0
        } else {
            (86400 - m) as i64
        }
    }
}

/// Whether a task that last ran at `last_run` is due at `now`.
pub fn is_due(last_run: Timestamp, now: Timestamp, interval: i64) -> (r: bool)
    ensures
        r == due(last_run.secs as int, last_run.nanos as int, now, interval as int),
{
    let ds: i128 = now.secs as i128 - last_run.secs as i128;
    let dn: i128 = now.nanos as i128 - last_run.nanos as i128;
    assert(-0x1_0000_0000_0000_0000 <= ds <= 0x1_0000_0000_0000_0000);
    assert(-0x1_0000_0000_0000_0000 * 1_000_000_000 <= ds * 1_000_000_000
        <= 0x1_0000_0000_0000_0000 * 1_000_000_000) by (nonlinear_arith)
        requires
            -0x1_0000_0000_0000_0000 <= ds <= 0x1_0000_0000_0000_0000,
    ;
    let last_day_second = second_of_day_of(last_run.secs);
    let now_day_second = second_of_day_of(now.secs);
    let leap: i128 = if now_day_second > last_day_second && last_run.nanos >= 1_000_000_000 {
        1_000_000_000
    } else if now_day_second < last_day_second && now.nanos >= 1_000_000_000 {
        -1_000_000_000
    } else {
        0
    };
    let total: i128 = ds * 1_000_000_000 + dn + leap;
    let minutes: i128 = if total >= 0 {
        total / 60_000_000_000
    } else {
        -((-total) / 60_000_000_000)
    };
    minutes >= interval as i128
}

/// Whether a task whose last run is stored as `last_run` is due at `now`. Fails
/// with `InvalidParameters` exactly where the interval is not positive, and else
/// with `DateParseError` exactly where the stored text is not a timestamp.
pub fn task_due(last_run: &str, now: Timestamp, interval: i64) -> (r: Result<bool, BotError>)
    ensures
        interval < 1 ==> r is Err && r->Err_0 is InvalidParameters,
        interval >= 1 ==> match r {
            Ok(b) => due_by_text(last_run@, now, interval as int) == Some(b) && 0
                <= (rfc3339_instant(last_run@)->0).1,
            Err(e) => due_by_text(last_run@, now, interval as int) is None && e is DateParseError,
        },
{
    if interval < 1 {
        return Err(BotError::InvalidParameters);
    }
    match parse_timestamp(last_run) {
        Some(t) => Ok(is_due(t, now, interval)),
        None => Err(BotError::DateParseError),
    }
}

/// Sorts the tasks of one poll cycle, in store order, into those to run now and
/// those that cannot be judged; a task of the second kind leaves the others
/// unaffected. Every task to run last ran in an earlier second than `now`.
pub fn due_tasks(tasks: &[ScheduledTask], now: Timestamp) -> (r: CyclePlan)
    ensures
        r.due@.map_values(|i: usize| i as int) == due_positions(tasks@, now),
        r.skipped@.map_values(|i: usize| i as int) == skipped_positions(tasks@),
        forall|k: int| 0 <= k < r.due.len() ==> ran_before(tasks@[#[trigger] r.due@[k] as int], now),
{
    let mut due: Vec<usize> = Vec::new();
    let mut skipped: Vec<usize> = Vec::new();
    let mut k: usize = 0;
    while k < tasks.len()
        invariant
            k <= tasks.len(),
            due@.map_values(|i: usize| i as int) == due_positions(tasks@.take(k as int), now),
            skipped@.map_values(|i: usize| i as int) == skipped_positions(tasks@.take(k as int)),
            forall|j: int| 0 <= j < due.len() ==> ran_before(tasks@[#[trigger] due@[j] as int], now),
            forall|j: int| 0 <= j < due.len() ==> due@[j] < k,
        decreases tasks.len() - k,
    {
        let t = &tasks[k];
        assert(tasks@.take(k + 1).drop_last() == tasks@.take(k as int));
        assert(tasks@.take(k + 1).last() == tasks@[k as int]);
        let ghost due_before = due@;
        let ghost skipped_before = skipped@;
        match task_due(t.last_run.as_str(), now, t.interval) {
            Ok(true) => {
                proof {
                    let x = rfc3339_instant(t.last_run@)->0;
                    lemma_due_in_later_second(x.0, x.1, now, t.interval as int);
                }
                due.push(k);
                assert(due@.map_values(|i: usize| i as int) == due_before.map_values(
                    |i: usize| i as int,
                ).push(k as int));
            },
            Ok(false) => {},
            Err(_) => {
                skipped.push(k);
                assert(skipped@.map_values(|i: usize| i as int) == skipped_before.map_values(
                    |i: usize| i as int,
                ).push(k as int));
            },
        }
        k = k + 1;
    }
    assert(tasks@.take(tasks.len() as int) == tasks@);
    CyclePlan { due, skipped }
}

/// The new last run to store after running a due task at `now`: only a
/// delivered answer moves it, so a failed run is retried on the next poll.
pub fn next_last_run(outcome: RunOutcome, now: Timestamp) -> (r: Option<Timestamp>)
    ensures
        r == if outcome == RunOutcome::Delivered {
            Some(now)
        } else {
            None
        },
{
    match outcome {
        RunOutcome::Delivered => Some(now),
        _ => None,
    }
}

/// Checking whether a task is due twice, with the same last run and the same
/// current time, gives the same verdict both times.
pub proof fn lemma_due_check_idempotent(
    last_run: Timestamp,
    now: Timestamp,
    interval: i64,
    first: bool,
    second: bool,
)
    requires
        first == due(last_run.secs as int, last_run.nanos as int, now, interval as int),
        second == due(last_run.secs as int, last_run.nanos as int, now, interval as int),
    ensures
        first == second,
{
}

proof fn lemma_due_in_later_second(secs: int, nanos: int, now: Timestamp, interval: int)
    requires
        interval >= 1,
        0 <= nanos,
        due(secs, nanos, now, interval),
    ensures
        secs < now.secs,
{
    let e = elapsed_nanos(secs, nanos, now);
    if e < 0 {
        lemma_div_pos_is_pos(-e, nanos_per_minute());
    } else if e < nanos_per_minute() {
        lemma_basic_div(e, nanos_per_minute());
    }
    assert(e >= nanos_per_minute());
    assert((now.secs - secs) * 1_000_000_000 >= 54_000_000_000);
}

/// With a positive interval, a task is due only in a later second than its last
/// run, so storing the time of the poll as its new last run never moves the last
/// run back.
pub proof fn lemma_due_after_last_run(last_run: Timestamp, now: Timestamp, interval: i64)
    requires
        interval >= 1,
        due(last_run.secs as int, last_run.nanos as int, now, interval as int),
    ensures
        last_run.secs < now.secs,
{
    lemma_due_in_later_second(last_run.secs as int, last_run.nanos as int, now, interval as int);
}

/// Whole minutes grow with the time elapsed.
proof fn lemma_whole_minutes_ordered(x: int, y: int)
    requires
        x <= y,
    ensures
        whole_minutes(x) <= whole_minutes(y),
{
    if 0 <= x {
        lemma_div_is_ordered(x, y, nanos_per_minute());
    } else if y < 0 {
        lemma_div_is_ordered(-y, -x, nanos_per_minute());
    } else {
        lemma_div_is_ordered(0, y, nanos_per_minute());
        lemma_div_is_ordered(0, -x, nanos_per_minute());
    }
}

/// A task that is due at one poll is due at every later poll, for as long as its
/// last run stays where it was: a failed run is retried on the next poll. (Leap
/// seconds are left out: chrono's count may step back by up to a second across
/// one.)
pub proof fn lemma_due_stays_due(last_run: Timestamp, now: Timestamp, later: Timestamp, interval: i64)
    requires
        last_run.nanos < 1_000_000_000,
        now.nanos < 1_000_000_000,
        later.nanos < 1_000_000_000,
        now.secs * 1_000_000_000 + now.nanos <= later.secs * 1_000_000_000 + later.nanos,
        due(last_run.secs as int, last_run.nanos as int, now, interval as int),
    ensures
        due(last_run.secs as int, last_run.nanos as int, later, interval as int),
{
    lemma_whole_minutes_ordered(
        elapsed_nanos(last_run.secs as int, last_run.nanos as int, now),
        elapsed_nanos(last_run.secs as int, last_run.nanos as int, later),
    );
}

} // verus!
