use vstd::prelude::*;

verus! {

/// Seconds to wait before another connection attempt, and before a restart.
pub const RETRY_DELAY_SECS: u64 = 5;

/// Identity probes made before a connection attempt gives up.
pub const MAX_CONNECT_ATTEMPTS: u32 = 5;

/// What to do after an identity probe.
#[derive(Clone, Copy, Debug, PartialEq, Eq, Structural)]
pub enum ConnectAction {
    /// The transport answered: serve on it.
    Serve,
    /// Wait the fixed delay, then probe again.
    RetryAfterDelay,
    /// Report a connection error; the supervisor restarts after the fixed delay.
    GiveUp,
}

/// The state of one attempt to connect to the transport.
pub struct RetrySession {
    pub attempt_count: u32,
    pub max_attempts: u32,
}

impl RetrySession {
    /// A session that is still connecting.
    pub open spec fn wf(&self) -> bool {
        self.attempt_count == 0 || self.attempt_count < self.max_attempts
    }

    pub fn new(max_attempts: u32) -> (r: RetrySession)
        ensures
            r.attempt_count == 0,
            r.max_attempts == max_attempts,
            r.wf(),
    {
        RetrySession { attempt_count: 0, max_attempts }
    }

    /// Records the result of a probe and says what comes next. A success resets
    /// the count; a failure counts, and gives up once the count reaches the
    /// maximum.
    pub fn on_probe(&mut self, succeeded: bool) -> (a: ConnectAction)
        requires
            old(self).wf(),
        ensures
            final(self).max_attempts == old(self).max_attempts,
            succeeded ==> a == ConnectAction::Serve && final(self).attempt_count == 0,
            !succeeded ==> final(self).attempt_count == old(self).attempt_count + 1,
            !succeeded ==> (a == ConnectAction::GiveUp <==> final(self).attempt_count
                >= final(self).max_attempts),
            !succeeded ==> (a == ConnectAction::RetryAfterDelay <==> final(self).attempt_count
                < final(self).max_attempts),
            a != ConnectAction::GiveUp ==> final(self).wf(),
    {
        if succeeded {
            self.attempt_count = 0;
            ConnectAction::Serve
        } else {
            self.attempt_count = self.attempt_count + 1;
            if self.attempt_count >= self.max_attempts {
                ConnectAction::GiveUp
            } else {
                ConnectAction::RetryAfterDelay
            }
        }
    }
}

} // verus!
