//! The spawn-confirmation state machine.
//!
//! Replay cannot learn from a spawn reply whether the window appeared:
//! it can only watch the count of live windows carrying the node's
//! application identifier.  One spawn therefore runs as a small machine:
//! each attempt records a baseline count, launches, then polls the count
//! at a fixed interval until it exceeds the baseline or the attempt's
//! timeout elapses; a timed-out attempt is retried until the node's
//! attempt budget is spent.  The machine only decides; the caller
//! performs the launches, the counting and the sleeping, and hands every
//! observation back in as an event.

use vstd::prelude::*;

use crate::consts::POLL_INTERVAL_MS;
use crate::models::opt_view;

verus! {

/// One window spawn as the replay planner schedules it: the command to
/// run, the identifier whose live-window count confirms the spawn (none
/// means fire and forget), the attempt budget and the per-attempt
/// confirmation window.
#[derive(Debug, PartialEq)]
pub struct SpawnJob {
    pub command: String,
    pub app_id: Option<String>,
    pub retry: u8,
    pub timeout_ms: u64,
}

/// The mathematical model of a [`SpawnJob`].
#[verifier::ext_equal]
pub ghost struct SpawnJobV {
    pub command: Seq<char>,
    pub app_id: Option<Seq<char>>,
    pub retry: u8,
    pub timeout_ms: u64,
}

impl View for SpawnJob {
    type V = SpawnJobV;

    open spec fn view(&self) -> SpawnJobV {
        SpawnJobV {
            command: self.command@,
            app_id: opt_view(self.app_id),
            retry: self.retry,
            timeout_ms: self.timeout_ms,
        }
    }
}

impl SpawnJob {
    /// Whether the machine must wait for this job: without an
    /// application identifier there is nothing to count, and the spawn
    /// is fire and forget.
    pub fn needs_confirmation(&self) -> (r: bool)
        ensures
            r == (self@.app_id is Some),
    {
        self.app_id.is_some()
    }
}

/// Where one spawn stands.
#[derive(Clone, Copy, Debug, PartialEq, Eq, Structural)]
pub enum SpawnPhase {
    /// The next attempt may start; the machine waits for a baseline count.
    Ready,
    /// A launch went out against this baseline; the machine polls.
    Waiting { baseline: u64 },
    /// The count rose above the attempt's baseline: the spawn took effect.
    Confirmed,
    /// Every attempt timed out; the node is abandoned, not the replay.
    Exhausted,
}

/// What the caller observed and hands to the machine.
#[derive(Clone, Copy, Debug, PartialEq, Eq, Structural)]
pub enum SpawnEvent {
    /// The live count of matching windows, read while the machine is ready.
    Counted { count: u64 },
    /// A poll while the machine waits: the live count, and the time that
    /// has passed since this attempt's launch.
    Polled { count: u64, elapsed_ms: u64 },
}

/// What the caller must do next.
#[derive(Clone, Copy, Debug, PartialEq, Eq, Structural)]
pub enum SpawnAction {
    /// Issue the job's spawn command now.
    Launch,
    /// Sleep one poll interval, then poll again.
    Sleep,
    /// Nothing: poll again, or stop if the machine is done.
    Idle,
}

/// The machine's state.  The two ghost fields account, in milliseconds,
/// for the sleeping the machine has demanded: within the running attempt
/// and in total.
pub struct SpawnState {
    pub attempts: u8,
    pub phase: SpawnPhase,
    pub slept_attempt_ms: Ghost<nat>,
    pub slept_total_ms: Ghost<nat>,
}

/// The mathematical model of a [`SpawnState`].
#[verifier::ext_equal]
pub ghost struct SpawnStateV {
    pub attempts: u8,
    pub phase: SpawnPhase,
    pub slept_attempt_ms: nat,
    pub slept_total_ms: nat,
}

impl View for SpawnState {
    type V = SpawnStateV;

    open spec fn view(&self) -> SpawnStateV {
        SpawnStateV {
            attempts: self.attempts,
            phase: self.phase,
            slept_attempt_ms: self.slept_attempt_ms@,
            slept_total_ms: self.slept_total_ms@,
        }
    }
}

impl SpawnStateV {
    /// The state before anything happened.
    pub open spec fn init() -> SpawnStateV {
        SpawnStateV { attempts: 0, phase: SpawnPhase::Ready, slept_attempt_ms: 0, slept_total_ms: 0 }
    }

    /// Whether the machine is done.
    pub open spec fn is_terminal(self) -> bool {
        self.phase == SpawnPhase::Confirmed || self.phase == SpawnPhase::Exhausted
    }
}

/// The count an event carries.
pub open spec fn event_count(ev: SpawnEvent) -> u64 {
    match ev {
        SpawnEvent::Counted { count } => count,
        SpawnEvent::Polled { count, .. } => count,
    }
}

/// Whether an event fits the machine's state: a count while ready, a
/// poll while waiting.  A poll cannot report less elapsed time than the
/// machine has already demanded in sleeping for this attempt.
pub open spec fn event_ok(st: SpawnStateV, ev: SpawnEvent) -> bool {
    match st.phase {
        SpawnPhase::Ready => ev is Counted,
        SpawnPhase::Waiting { .. } => ev matches SpawnEvent::Polled { elapsed_ms, .. }
            && st.slept_attempt_ms <= elapsed_ms,
        _ => false,
    }
}

/// One decision of the machine: the next state and what the caller must
/// do.  A launch is allowed only while attempts remain; a poll confirms
/// on a count above the baseline, gives the attempt up once the timeout
/// has elapsed, and otherwise asks for one more poll interval of sleep.
pub open spec fn step_spec(job: SpawnJobV, st: SpawnStateV, ev: SpawnEvent) -> (SpawnStateV,
    SpawnAction) {
    match (st.phase, ev) {
        (SpawnPhase::Ready, SpawnEvent::Counted { count }) => {
            if st.attempts < job.retry {
                (
                    SpawnStateV {
                        attempts: (st.attempts + 1) as u8,
                        phase: SpawnPhase::Waiting { baseline: count },
                        slept_attempt_ms: 0,
                        ..st
                    },
                    SpawnAction::Launch,
                )
            } else {
                (SpawnStateV { phase: SpawnPhase::Exhausted, ..st }, SpawnAction::Idle)
            }
        },
        (SpawnPhase::Waiting { baseline }, SpawnEvent::Polled { count, elapsed_ms }) => {
            if count > baseline {
                (SpawnStateV { phase: SpawnPhase::Confirmed, ..st }, SpawnAction::Idle)
            } else if elapsed_ms > job.timeout_ms {
                if st.attempts < job.retry {
                    (SpawnStateV { phase: SpawnPhase::Ready, ..st }, SpawnAction::Idle)
                } else {
                    (SpawnStateV { phase: SpawnPhase::Exhausted, ..st }, SpawnAction::Idle)
                }
            } else {
                (
                    SpawnStateV {
                        slept_attempt_ms: (st.slept_attempt_ms + POLL_INTERVAL_MS) as nat,
                        slept_total_ms: (st.slept_total_ms + POLL_INTERVAL_MS) as nat,
                        ..st
                    },
                    SpawnAction::Sleep,
                )
            }
        },
        _ => (st, SpawnAction::Idle),
    }
}

impl SpawnState {
    /// A machine that has done nothing yet.
    pub fn new() -> (s: Self)
        ensures
            s@ == SpawnStateV::init(),
    {
        SpawnState {
            attempts: 0,
            phase: SpawnPhase::Ready,
            slept_attempt_ms: Ghost(0),
            slept_total_ms: Ghost(0),
        }
    }

    /// Feeds one observation to the machine and returns what to do next.
    pub fn step(&mut self, job: &SpawnJob, ev: SpawnEvent) -> (act: SpawnAction)
        ensures
            (final(self)@, act) == step_spec(job@, old(self)@, ev),
    {
        match (self.phase, ev) {
            (SpawnPhase::Ready, SpawnEvent::Counted { count }) => {
                if self.attempts < job.retry {
                    self.attempts = self.attempts + 1;
                    self.phase = SpawnPhase::Waiting { baseline: count };
                    self.slept_attempt_ms = Ghost(0);
                    SpawnAction::Launch
                } else {
                    self.phase = SpawnPhase::Exhausted;
                    SpawnAction::Idle
                }
            },
            (SpawnPhase::Waiting { baseline }, SpawnEvent::Polled { count, elapsed_ms }) => {
                if count > baseline {
                    self.phase = SpawnPhase::Confirmed;
                    SpawnAction::Idle
                } else if elapsed_ms > job.timeout_ms {
                    if self.attempts < job.retry {
                        self.phase = SpawnPhase::Ready;
                    } else {
                        self.phase = SpawnPhase::Exhausted;
                    }
                    SpawnAction::Idle
                } else {
                    self.slept_attempt_ms = Ghost((self.slept_attempt_ms@ + POLL_INTERVAL_MS) as nat);
                    self.slept_total_ms = Ghost((self.slept_total_ms@ + POLL_INTERVAL_MS) as nat);
                    SpawnAction::Sleep
                }
            },
            _ => SpawnAction::Idle,
        }
    }
}

/// The state after a whole sequence of observations.
pub open spec fn run_steps(job: SpawnJobV, st: SpawnStateV, evs: Seq<SpawnEvent>) -> SpawnStateV
    decreases evs.len(),
{
    if evs.len() == 0 {
        st
    } else {
        run_steps(job, step_spec(job, st, evs[0]).0, evs.subrange(1, evs.len() as int))
    }
}

/// How many launches a whole sequence of observations causes.
pub open spec fn launches(job: SpawnJobV, st: SpawnStateV, evs: Seq<SpawnEvent>) -> nat
    decreases evs.len(),
{
    if evs.len() == 0 {
        0
    } else {
        (if step_spec(job, st, evs[0]).1 == SpawnAction::Launch {
            1nat
        } else {
            0nat
        }) + launches(job, step_spec(job, st, evs[0]).0, evs.subrange(1, evs.len() as int))
    }
}

/// Whether a sequence of observations respects the machine's protocol
/// from the given state on.
pub open spec fn trace_ok(job: SpawnJobV, st: SpawnStateV, evs: Seq<SpawnEvent>) -> bool
    decreases evs.len(),
{
    evs.len() == 0 || (event_ok(st, evs[0]) && trace_ok(
        job,
        step_spec(job, st, evs[0]).0,
        evs.subrange(1, evs.len() as int),
    ))
}

/// The machine's inductive invariant: attempts stay within the budget, a
/// spent machine has spent exactly the budget, and the demanded sleeping
/// is bounded by one confirmation window plus one poll interval per
/// attempt.
pub open spec fn state_inv(job: SpawnJobV, st: SpawnStateV) -> bool {
    &&& st.attempts <= job.retry
    &&& (st.phase == SpawnPhase::Exhausted ==> st.attempts == job.retry)
    &&& (match st.phase {
        SpawnPhase::Waiting { .. } => {
            &&& st.attempts >= 1
            &&& st.slept_attempt_ms <= job.timeout_ms + POLL_INTERVAL_MS
            &&& st.slept_total_ms <= (st.attempts - 1) * (job.timeout_ms + POLL_INTERVAL_MS)
                + st.slept_attempt_ms
        },
        _ => st.slept_total_ms <= st.attempts * (job.timeout_ms + POLL_INTERVAL_MS),
    })
}

/// One fitting observation preserves the invariant.
proof fn lemma_step_inv(job: SpawnJobV, st: SpawnStateV, ev: SpawnEvent)
    requires
        state_inv(job, st),
        event_ok(st, ev),
    ensures
        state_inv(job, step_spec(job, st, ev).0),
{
    let (st2, _) = step_spec(job, st, ev);
    match (st.phase, ev) {
        (SpawnPhase::Waiting { baseline }, SpawnEvent::Polled { count, elapsed_ms }) => {
            assert(st.slept_total_ms <= st.attempts * (job.timeout_ms + POLL_INTERVAL_MS))
                by (nonlinear_arith)
                requires
                    st.attempts >= 1,
                    st.slept_attempt_ms <= job.timeout_ms + POLL_INTERVAL_MS,
                    st.slept_total_ms <= (st.attempts - 1) * (job.timeout_ms + POLL_INTERVAL_MS)
                        + st.slept_attempt_ms,
            ;
            if count > baseline {
            } else if elapsed_ms > job.timeout_ms {
            } else {
                assert(st.slept_attempt_ms <= elapsed_ms);
                assert(elapsed_ms <= job.timeout_ms);
            }
        },
        _ => {},
    }
}

/// The invariant carries over any fitting sequence of observations.
proof fn lemma_run_inv(job: SpawnJobV, st: SpawnStateV, evs: Seq<SpawnEvent>)
    requires
        state_inv(job, st),
        trace_ok(job, st, evs),
    ensures
        state_inv(job, run_steps(job, st, evs)),
    decreases evs.len(),
{
    if evs.len() > 0 {
        lemma_step_inv(job, st, evs[0]);
        lemma_run_inv(job, step_spec(job, st, evs[0]).0, evs.subrange(1, evs.len() as int));
    }
}

/// A launch is exactly an increment of `attempts`: over any sequence of
/// observations, the number of launches is the growth of `attempts`.
proof fn lemma_launches_attempts(job: SpawnJobV, st: SpawnStateV, evs: Seq<SpawnEvent>)
    requires
        st.attempts <= job.retry,
    ensures
        run_steps(job, st, evs).attempts >= st.attempts,
        launches(job, st, evs) == run_steps(job, st, evs).attempts - st.attempts,
    decreases evs.len(),
{
    if evs.len() > 0 {
        let st2 = step_spec(job, st, evs[0]).0;
        assert(st2.attempts <= job.retry && st2.attempts >= st.attempts && (step_spec(
            job,
            st,
            evs[0],
        ).1 == SpawnAction::Launch <==> st2.attempts == st.attempts + 1) && (step_spec(
            job,
            st,
            evs[0],
        ).1 != SpawnAction::Launch ==> st2.attempts == st.attempts));
        lemma_launches_attempts(job, st2, evs.subrange(1, evs.len() as int));
    }
}

/// Retry bound: however the observations run, a job never launches more
/// often than its attempt budget allows.
pub proof fn lemma_spawn_launch_bound(job: SpawnJobV, evs: Seq<SpawnEvent>)
    requires
        trace_ok(job, SpawnStateV::init(), evs),
    ensures
        launches(job, SpawnStateV::init(), evs) <= job.retry,
{
    lemma_run_inv(job, SpawnStateV::init(), evs);
    lemma_launches_attempts(job, SpawnStateV::init(), evs);
}

/// Time bound: however the observations run, the sleeping the machine
/// demands stays within one confirmation window plus one poll interval
/// per budgeted attempt.
pub proof fn lemma_spawn_sleep_bound(job: SpawnJobV, evs: Seq<SpawnEvent>)
    requires
        trace_ok(job, SpawnStateV::init(), evs),
    ensures
        run_steps(job, SpawnStateV::init(), evs).slept_total_ms <= job.retry * (job.timeout_ms
            + POLL_INTERVAL_MS),
{
    lemma_run_inv(job, SpawnStateV::init(), evs);
    let fin = run_steps(job, SpawnStateV::init(), evs);
    assert(fin.slept_total_ms <= job.retry * (job.timeout_ms + POLL_INTERVAL_MS))
        by (nonlinear_arith)
        requires
            state_inv(job, fin),
            fin.attempts <= job.retry,
    ;
}

/// Whether the observed counts never rise anywhere in the sequence.
pub open spec fn counts_never_rise(evs: Seq<SpawnEvent>) -> bool {
    forall|i: int, j: int|
        0 <= i <= j < evs.len() ==> event_count(evs[i]) >= event_count(evs[j])
}

/// While waiting, the baseline was read before every remaining
/// observation; with counts that never rise it bounds them all.
spec fn baseline_bounds(st: SpawnStateV, evs: Seq<SpawnEvent>) -> bool {
    match st.phase {
        SpawnPhase::Waiting { baseline } => forall|k: int|
            0 <= k < evs.len() ==> event_count(#[trigger] evs[k]) <= baseline,
        _ => true,
    }
}

/// Retry exhaustion: when the count never rises, the machine never
/// confirms; if it comes to rest at all it comes to rest `Exhausted`,
/// after exactly as many launches as the budget allows.
proof fn lemma_never_confirm_rec(job: SpawnJobV, st: SpawnStateV, evs: Seq<SpawnEvent>)
    requires
        trace_ok(job, st, evs),
        counts_never_rise(evs),
        baseline_bounds(st, evs),
        st.phase != SpawnPhase::Confirmed,
    ensures
        run_steps(job, st, evs).phase != SpawnPhase::Confirmed,
    decreases evs.len(),
{
    if evs.len() > 0 {
        let st2 = step_spec(job, st, evs[0]).0;
        let rest = evs.subrange(1, evs.len() as int);
        assert(forall|k: int| 0 <= k < rest.len() ==> #[trigger] rest[k] == evs[k + 1]);
        assert(counts_never_rise(rest));
        assert(st2.phase != SpawnPhase::Confirmed);
        assert(baseline_bounds(st2, rest)) by {
            match st2.phase {
                SpawnPhase::Waiting { baseline } => {
                    assert(forall|k: int|
                        0 <= k < rest.len() ==> event_count(#[trigger] rest[k]) <= baseline);
                },
                _ => {},
            }
        }
        lemma_never_confirm_rec(job, st2, rest);
    }
}

/// Retry exhaustion, from the start: with counts that never rise, a
/// machine that has come to rest is `Exhausted` and has launched exactly
/// `retry` times.
pub proof fn lemma_spawn_exhausts(job: SpawnJobV, evs: Seq<SpawnEvent>)
    requires
        trace_ok(job, SpawnStateV::init(), evs),
        counts_never_rise(evs),
        run_steps(job, SpawnStateV::init(), evs).is_terminal(),
    ensures
        run_steps(job, SpawnStateV::init(), evs).phase == SpawnPhase::Exhausted,
        launches(job, SpawnStateV::init(), evs) == job.retry,
{
    lemma_never_confirm_rec(job, SpawnStateV::init(), evs);
    lemma_run_inv(job, SpawnStateV::init(), evs);
    lemma_launches_attempts(job, SpawnStateV::init(), evs);
}

/// Confirmation: the first poll that sees the count above the attempt's
/// baseline confirms the spawn at once — no sleeping, no further launch.
pub proof fn lemma_spawn_confirms(
    job: SpawnJobV,
    st: SpawnStateV,
    baseline: u64,
    count: u64,
    elapsed_ms: u64,
)
    requires
        st.phase == (SpawnPhase::Waiting { baseline }),
        count > baseline,
    ensures
        step_spec(job, st, SpawnEvent::Polled { count, elapsed_ms }).0.phase
            == SpawnPhase::Confirmed,
        step_spec(job, st, SpawnEvent::Polled { count, elapsed_ms }).1 == SpawnAction::Idle,
        step_spec(job, st, SpawnEvent::Polled { count, elapsed_ms }).0.attempts == st.attempts,
{
}

/// A machine at rest stays at rest: whatever is still handed to it, its
/// state does not change and it never launches again.
pub proof fn lemma_terminal_stays(job: SpawnJobV, st: SpawnStateV, evs: Seq<SpawnEvent>)
    requires
        st.is_terminal(),
    ensures
        run_steps(job, st, evs) == st,
        launches(job, st, evs) == 0,
    decreases evs.len(),
{
    if evs.len() > 0 {
        assert(step_spec(job, st, evs[0]).0 == st);
        lemma_terminal_stays(job, st, evs.subrange(1, evs.len() as int));
    }
}

} // verus!
