//! Backend process supervision: the decisions of the spawn, readiness-poll
//! and terminate state machines.
//!
//! The surrounding shell performs the outside work — spawning the process
//! group, attempting TCP connections, sending signals, sleeping between
//! polls — and feeds each observation back into these machines; every
//! decision about what to do next is made, and verified, here.

use vstd::prelude::*;

verus! {

use crate::text::dec_str;
use crate::text::u64_to_string;
use vstd::string::StringExecFns;

/// Milliseconds between readiness and termination polls.
pub const POLL_INTERVAL_MS: u64 = 100;

/// Default bound on waiting for the backend port to become reachable.
pub const READY_TIMEOUT_MS: u64 = 60_000;

/// Grace period between the graceful termination signal and the forced
/// kill.
pub const GRACE_MS: u64 = 500;

/// A fixed-interval poll timer: elapsed time, counted in poll intervals,
/// against a limit.
pub struct PollTimer {
    elapsed_ms: u64,
    limit_ms: u64,
}

/// Whether a poll loop that sleeps `POLL_INTERVAL_MS` between attempts,
/// starting with `elapsed` of its `limit` already spent, sees a true
/// outcome before the limit runs out. Outcome `i` of the sequence is what
/// attempt `i` observes; missing outcomes count as failures.
pub open spec fn poll_run(elapsed: int, limit: int, outcomes: Seq<bool>) -> bool
    decreases outcomes.len(),
{
    if elapsed >= limit {
        false
    } else if outcomes.len() == 0 {
        false
    } else if outcomes[0] {
        true
    } else {
        poll_run(elapsed + 100, limit, outcomes.drop_first())
    }
}

/// How many attempts a poll loop makes before `limit` is spent.
pub open spec fn attempt_budget(limit: int) -> int {
    (limit + 99) / 100
}

/// A poll loop over a whole limit succeeds exactly when some attempt within
/// the budget observes a true outcome.
pub open spec fn some_attempt_succeeds(limit: int, outcomes: Seq<bool>) -> bool {
    exists|i: int|
        0 <= i < attempt_budget(limit) && i < outcomes.len() && #[trigger] outcomes[i]
}

proof fn lemma_poll_run_rem(elapsed: int, limit: int, outcomes: Seq<bool>)
    requires
        elapsed >= 0,
    ensures
        poll_run(elapsed, limit, outcomes) == some_attempt_succeeds(limit - elapsed, outcomes),
    decreases outcomes.len(),
{
    if elapsed >= limit {
        assert(attempt_budget(limit - elapsed) <= 0);
    } else if outcomes.len() == 0 {
    } else if outcomes[0] {
        assert(attempt_budget(limit - elapsed) >= 1);
        assert(0 <= 0 < attempt_budget(limit - elapsed) && 0 < outcomes.len() && outcomes[0]);
    } else {
        lemma_poll_run_rem(elapsed + 100, limit, outcomes.drop_first());
        assert(attempt_budget(limit - elapsed - 100) == attempt_budget(limit - elapsed) - 1);
        if poll_run(elapsed, limit, outcomes) {
            let i = choose|i: int|
                0 <= i < attempt_budget(limit - elapsed - 100) && i < outcomes.drop_first().len()
                    && #[trigger] outcomes.drop_first()[i];
            assert(outcomes[i + 1]);
            assert(some_attempt_succeeds(limit - elapsed, outcomes));
        }
        if some_attempt_succeeds(limit - elapsed, outcomes) {
            let i = choose|i: int|
                0 <= i < attempt_budget(limit - elapsed) && i < outcomes.len()
                    && #[trigger] outcomes[i];
            assert(i >= 1);
            assert(outcomes.drop_first()[i - 1]);
            assert(some_attempt_succeeds(limit - elapsed - 100, outcomes.drop_first()));
        }
    }
}

/// Readiness convergence: a poll loop started fresh observes a success
/// exactly when one of the attempts within its budget succeeds — a backend
/// that opens its socket within the window is seen before the timeout, and
/// one that never opens it exhausts the budget and times out.
pub proof fn lemma_poll_convergence(limit: int, outcomes: Seq<bool>)
    ensures
        poll_run(0, limit, outcomes) == some_attempt_succeeds(limit, outcomes),
{
    lemma_poll_run_rem(0, limit, outcomes);
}

impl PollTimer {
    /// Milliseconds already spent.
    pub closed spec fn elapsed(&self) -> int {
        self.elapsed_ms as int
    }

    /// The limit this timer counts against.
    pub closed spec fn limit(&self) -> int {
        self.limit_ms as int
    }

    /// A fresh timer for the given limit.
    pub fn new(limit_ms: u64) -> (t: Self)
        requires
            limit_ms <= u64::MAX - 100,
        ensures
            t.elapsed() == 0,
            t.limit() == limit_ms,
    {
        PollTimer { elapsed_ms: 0, limit_ms }
    }

    /// Whether another attempt still falls within the limit.
    pub fn within_limit(&self) -> (r: bool)
        ensures
            r == (self.elapsed() < self.limit()),
    {
        self.elapsed_ms < self.limit_ms
    }

    /// Accounts for the sleep between two poll attempts.
    pub fn advance(&mut self)
        requires
            old(self).elapsed() < old(self).limit(),
            old(self).limit() <= u64::MAX - 100,
        ensures
            final(self).elapsed() == old(self).elapsed() + 100,
            final(self).limit() == old(self).limit(),
    {
        self.elapsed_ms = self.elapsed_ms + 100;
    }
}

/// Drives a whole poll loop over recorded attempt outcomes, exactly as the
/// readiness and grace loops run against live observations: the first true
/// outcome ends the loop at once, and the limit caps the attempts.
#[verifier::loop_isolation(false)]
pub fn poll_outcomes(limit_ms: u64, outcomes: &Vec<bool>) -> (ready: bool)
    requires
        limit_ms <= u64::MAX - 100,
    ensures
        ready == poll_run(0, limit_ms as int, outcomes@),
{
    let mut timer = PollTimer::new(limit_ms);
    let mut i: usize = 0;
    proof {
        assert(outcomes@.skip(0) =~= outcomes@);
    }
    while timer.within_limit()
        invariant
            i <= outcomes@.len(),
            timer.limit() == limit_ms,
            timer.elapsed() == 100 * (i as int),
            poll_run(0, limit_ms as int, outcomes@) == poll_run(
                timer.elapsed(),
                limit_ms as int,
                outcomes@.skip(i as int),
            ),
        decreases outcomes@.len() - i,
    {
        if i >= outcomes.len() {
            proof {
                assert(outcomes@.skip(i as int) =~= Seq::<bool>::empty());
            }
            return false;
        }
        if outcomes[i] {
            proof {
                assert(outcomes@.skip(i as int)[0] == outcomes@[i as int]);
            }
            return true;
        }
        proof {
            assert(outcomes@.skip(i as int).drop_first() =~= outcomes@.skip(i + 1));
            assert(outcomes@.skip(i as int)[0] == outcomes@[i as int]);
        }
        timer.advance();
        i = i + 1;
    }
    false
}

/// What a terminate call decides.
#[derive(Debug, PartialEq, Eq, Structural)]
pub enum TerminateAction {
    /// The handle was already consumed: do nothing and report the default
    /// exit status.
    AlreadyDone,
    /// The handle is hereby consumed: send the graceful signal to the
    /// process group, poll for exit through the grace period, then
    /// force-kill if it is still alive.
    Graceful,
}

/// The supervisor's own state for one backend instance: the TCP port the
/// backend serves, and whether the process-group handle is still held.
/// At most one live handle exists; terminating consumes it.
pub struct ManagedBackend {
    live: bool,
    port: u16,
}

impl ManagedBackend {
    /// Whether the process-group handle is still held.
    pub closed spec fn live(&self) -> bool {
        self.live
    }

    /// The backend's TCP port.
    pub closed spec fn port_spec(&self) -> u16 {
        self.port
    }

    /// A freshly spawned backend: the handle is held, the port recorded.
    pub fn new(port: u16) -> (s: Self)
        ensures
            s.live(),
            s.port_spec() == port,
    {
        ManagedBackend { live: true, port }
    }

    /// The backend's TCP port.
    pub fn port(&self) -> (p: u16)
        ensures
            p == self.port_spec(),
    {
        self.port
    }

    /// What a terminate call does to the state, and what it decides.
    pub closed spec fn terminate_transition(self) -> (ManagedBackend, TerminateAction) {
        (
            ManagedBackend { live: false, port: self.port },
            if self.live {
                TerminateAction::Graceful
            } else {
                TerminateAction::AlreadyDone
            },
        )
    }

    /// Decides a terminate call. The handle, if held, is consumed: exactly
    /// the first call answers `Graceful`, and every later call is a no-op
    /// answering `AlreadyDone` — never an error.
    pub fn terminate(&mut self) -> (a: TerminateAction)
        ensures
            !final(self).live(),
            final(self).port_spec() == old(self).port_spec(),
            (*final(self), a) == old(self).terminate_transition(),
            a == (if old(self).live() {
                TerminateAction::Graceful
            } else {
                TerminateAction::AlreadyDone
            }),
    {
        if self.live {
            self.live = false;
            TerminateAction::Graceful
        } else {
            TerminateAction::AlreadyDone
        }
    }
}

/// At most one live handle: after a terminate the handle is gone, and a
/// second terminate is a no-op — it leaves the state unchanged and answers
/// `AlreadyDone`, never an error.
pub proof fn lemma_terminate_twice(s: ManagedBackend)
    ensures
        !s.terminate_transition().0.live(),
        s.terminate_transition().0.terminate_transition().1 == TerminateAction::AlreadyDone,
        s.terminate_transition().0.terminate_transition().0 == s.terminate_transition().0,
{
}

/// The command line of the backend process.
pub fn backend_args(port: u16) -> (args: Vec<String>)
    ensures
        args.deep_view() =~= seq![
            "gui.py"@,
            "--host"@,
            "127.0.0.1"@,
            "--port"@,
            dec_str(port as nat),
        ],
{
    let mut args: Vec<String> = Vec::new();
    args.push("gui.py".to_owned());
    args.push("--host".to_owned());
    args.push("127.0.0.1".to_owned());
    args.push("--port".to_owned());
    args.push(u64_to_string(port as u64));
    args
}

/// The address polled for readiness.
pub fn readiness_address(port: u16) -> (addr: String)
    ensures
        addr@ == "127.0.0.1:"@ + dec_str(port as nat),
{
    let mut addr: String = "127.0.0.1:".to_owned();
    let p = u64_to_string(port as u64);
    addr.append(p.as_str());
    addr
}

/// The error message reported when the backend port never becomes ready.
pub fn timeout_message(port: u16) -> (msg: String)
    ensures
        msg@ == "Timeout waiting for port "@ + dec_str(port as nat) + " to be ready"@,
{
    let mut msg: String = "Timeout waiting for port ".to_owned();
    let p = u64_to_string(port as u64);
    msg.append(p.as_str());
    msg.append(" to be ready");
    msg
}

/// The environment entry that tags a spawned backend with its supervisor,
/// for the orphan sweep.
pub fn launcher_tag(supervisor_pid: u32) -> (tag: String)
    ensures
        tag@ == "ALAS_LAUNCHER_PID="@ + dec_str(supervisor_pid as nat),
{
    let mut tag: String = "ALAS_LAUNCHER_PID=".to_owned();
    let p = u64_to_string(supervisor_pid as u64);
    tag.append(p.as_str());
    tag
}

/// Whether the orphan sweep should kill a process from the live process
/// table: exactly when it is not the supervisor itself and one of its
/// environment entries is the supervisor's own tag.
pub fn should_sweep_kill(candidate_pid: u32, own_pid: u32, env_entry: &str) -> (r: bool)
    ensures
        r == (candidate_pid != own_pid && env_entry@ == "ALAS_LAUNCHER_PID="@ + dec_str(
            own_pid as nat,
        )),
{
    if candidate_pid == own_pid {
        return false;
    }
    let tag = launcher_tag(own_pid);
    let entry: String = env_entry.to_owned();
    tag == entry
}

} // verus!
