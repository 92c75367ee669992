//! The worker-pool supervisor, as a deterministic state machine.
//!
//! The asynchronous runtime around the pool owns the channels, the tasks and
//! the timers; every decision it takes — whether startup succeeds, when a
//! replacement worker is spawned, when the pool counts as drained — is made
//! here, as a pure step function from state and event to state and action.

use vstd::prelude::*;

verus! {

/// A lifecycle report from one worker task.
pub enum StatusEvent {
    /// The worker's external process launched; carries the worker id.
    Launched(u64),
    /// The worker handled one command: worker id, elapsed ticks, success.
    Handled(u64, u64, bool),
    /// The worker failed, before or after launch.
    Failed(Option<u64>),
}

/// One wake-up of the supervisor loop.
pub enum PoolEvent {
    /// The caller asked the pool to stop.
    StopRequested,
    /// A worker reported a lifecycle event.
    Status(StatusEvent),
    /// One outstanding worker task finished, for any reason.
    WorkerExited,
    /// The spawn cooldown timer fired.
    CooldownExpired,
}

/// What the runtime must do after a step.
pub enum Action {
    /// Nothing to do.
    DoNothing,
    /// Spawn one worker task; `true` marks the cooldown-bypassing emergency
    /// respawn taken when the pool has just become empty.
    Spawn(bool),
    /// Broadcast the shutdown signal and begin draining.
    BeginShutdown,
}

/// The first launch failed, so the pool never started.
pub struct StartupError {
    /// The id the failed worker reported, if it got far enough to have one.
    pub worker: Option<u64>,
}

/// The minimum number of ticks between two non-emergency spawns.
pub const COOLDOWN: u64 = 1;

/// The supervisor's state between wake-ups.
pub struct PoolState {
    /// The target number of live workers, fixed at startup.
    pub desired: usize,
    /// How many worker tasks are outstanding (spawned and not yet exited).
    pub outstanding: usize,
    /// Whether a stop request has been observed.
    pub stopping: bool,
    /// Whether the pool has fully drained: set only once stopping and empty.
    pub done: bool,
    /// The earliest tick at which a non-emergency spawn is permitted.
    pub next_spawn_at: u64,
    /// The tick of the most recent step.
    pub now: u64,
}

impl PoolState {
    /// The state invariant: a positive target, a completion flag that is set
    /// only when the pool is stopping and empty, and a cooldown deadline no
    /// further than one interval past the clock.
    pub open spec fn wf(&self) -> bool {
        &&& self.desired >= 1
        &&& (self.done ==> self.stopping && self.outstanding == 0)
        &&& self.next_spawn_at <= self.now + COOLDOWN
    }
}

/// The supervisor's transition function.
///
/// A stop request broadcasts shutdown and forbids any further spawn.  A
/// status event is bookkeeping only.  A worker exit shrinks the pool and, if
/// the pool just became empty while running, spawns a replacement at once,
/// bypassing the cooldown.  A cooldown expiry spawns one worker when the pool
/// is short of its target, and re-arms the cooldown.
pub open spec fn step_spec(s: PoolState, event: PoolEvent, now: u64) -> (PoolState, Action) {
    match event {
        PoolEvent::StopRequested => (
            PoolState { stopping: true, done: s.outstanding == 0, now, ..s },
            Action::BeginShutdown,
        ),
        PoolEvent::Status(_) => (PoolState { now, ..s }, Action::DoNothing),
        PoolEvent::WorkerExited => {
            let left = (s.outstanding - 1) as usize;
            if s.stopping {
                (PoolState { outstanding: left, done: left == 0, now, ..s }, Action::DoNothing)
            } else if left == 0 {
                (
                    PoolState { outstanding: 1, next_spawn_at: (now + COOLDOWN) as u64, now, ..s },
                    Action::Spawn(true),
                )
            } else {
                (PoolState { outstanding: left, now, ..s }, Action::DoNothing)
            }
        },
        PoolEvent::CooldownExpired => {
            if !s.stopping && s.outstanding < s.desired && now >= s.next_spawn_at {
                (
                    PoolState {
                        outstanding: (s.outstanding + 1) as usize,
                        next_spawn_at: (now + COOLDOWN) as u64,
                        now,
                        ..s
                    },
                    Action::Spawn(false),
                )
            } else {
                (PoolState { now, ..s }, Action::DoNothing)
            }
        },
    }
}

impl PoolState {
    /// The state right after a successful bootstrap: one worker launched,
    /// the cooldown armed one interval ahead.
    pub fn new(desired: usize, now: u64) -> (r: PoolState)
        requires
            desired >= 1,
            now <= u64::MAX - COOLDOWN,
        ensures
            r.wf(),
            r.desired == desired,
            r.outstanding == 1,
            !r.stopping,
            !r.done,
            r.next_spawn_at == now + COOLDOWN,
            r.now == now,
    {
        PoolState {
            desired,
            outstanding: 1,
            stopping: false,
            done: false,
            next_spawn_at: now + COOLDOWN,
            now,
        }
    }

    /// Performs one supervisor step.
    pub fn step(&mut self, event: PoolEvent, now: u64) -> (a: Action)
        requires
            old(self).wf(),
            now >= old(self).now,
            now <= u64::MAX - COOLDOWN,
            event is WorkerExited ==> old(self).outstanding >= 1,
        ensures
            (*final(self), a) == step_spec(*old(self), event, now),
            final(self).wf(),
            old(self).stopping ==> !(a is Spawn) && final(self).outstanding <= old(self).outstanding,
    {
        match event {
            PoolEvent::StopRequested => {
                self.stopping = true;
                self.done = self.outstanding == 0;
                self.now = now;
                Action::BeginShutdown
            },
            PoolEvent::Status(_) => {
                self.now = now;
                Action::DoNothing
            },
            PoolEvent::WorkerExited => {
                let left = self.outstanding - 1;
                self.now = now;
                if self.stopping {
                    self.outstanding = left;
                    self.done = left == 0;
                    Action::DoNothing
                } else if left == 0 {
                    self.outstanding = 1;
                    self.next_spawn_at = now + COOLDOWN;
                    Action::Spawn(true)
                } else {
                    self.outstanding = left;
                    Action::DoNothing
                }
            },
            PoolEvent::CooldownExpired => {
                self.now = now;
                if !self.stopping && self.outstanding < self.desired && now >= self.next_spawn_at {
                    self.outstanding = self.outstanding + 1;
                    self.next_spawn_at = now + COOLDOWN;
                    Action::Spawn(false)
                } else {
                    Action::DoNothing
                }
            },
        }
    }
}

/// Decides the outcome of startup from the first worker's first report.
///
/// A launch means the pool starts; a failure aborts startup and surfaces the
/// error to the caller, so no handle is ever produced.  A `Handled` first
/// event would mean a worker completed a command before any was offered,
/// which the caller must rule out.
pub fn bootstrap(first: StatusEvent) -> (r: Result<(), StartupError>)
    requires
        !(first is Handled),
    ensures
        r is Ok <==> first is Launched,
        r is Err <==> first is Failed,
{
    match first {
        StatusEvent::Launched(_) => Ok(()),
        StatusEvent::Failed(worker) => Err(StartupError { worker }),
        StatusEvent::Handled(_, _, _) => Err(StartupError { worker: None }),
    }
}

/// Once the stop signal has been observed, no step spawns a worker and the
/// outstanding count never increases.
pub proof fn lemma_no_post_stop_spawns(s: PoolState, event: PoolEvent, now: u64)
    requires
        s.wf(),
        s.stopping,
        event is WorkerExited ==> s.outstanding >= 1,
    ensures
        !(step_spec(s, event, now).1 is Spawn),
        step_spec(s, event, now).0.outstanding <= s.outstanding,
        step_spec(s, event, now).0.stopping,
{
}

/// The pool counts as drained only once every outstanding worker has exited.
pub proof fn lemma_graceful_drain(s: PoolState, event: PoolEvent, now: u64)
    requires
        s.wf(),
        now >= s.now,
        now <= u64::MAX - COOLDOWN,
        event is WorkerExited ==> s.outstanding >= 1,
    ensures
        step_spec(s, event, now).0.wf(),
        step_spec(s, event, now).0.done ==> step_spec(s, event, now).0.outstanding == 0,
{
}

/// When the last live worker exits before any stop request, the very next
/// action is an emergency spawn, so the pool never rests at zero workers.
pub proof fn lemma_emergency_respawn(s: PoolState, now: u64)
    requires
        s.wf(),
        !s.stopping,
        s.outstanding == 1,
    ensures
        step_spec(s, PoolEvent::WorkerExited, now).1 == Action::Spawn(true),
        step_spec(s, PoolEvent::WorkerExited, now).0.outstanding == 1,
{
}

/// A pool short of its target spawns as soon as the cooldown has elapsed,
/// so after a crash the count recovers within one cooldown interval.
pub proof fn lemma_replacement_on_crash(s: PoolState, now: u64)
    requires
        s.wf(),
        !s.stopping,
        s.outstanding < s.desired,
        now >= s.next_spawn_at,
    ensures
        step_spec(s, PoolEvent::CooldownExpired, now).1 == Action::Spawn(false),
        step_spec(s, PoolEvent::CooldownExpired, now).0.outstanding == s.outstanding + 1,
{
}

/// The pool's state after consuming a sequence of timestamped events.
pub open spec fn run(s: PoolState, evs: Seq<(PoolEvent, u64)>) -> PoolState
    decreases evs.len(),
{
    if evs.len() == 0 {
        s
    } else {
        run(step_spec(s, evs[0].0, evs[0].1).0, evs.drop_first())
    }
}

/// A well-formed trace: the clock never goes backwards, stays clear of the
/// final cooldown interval before overflow, and a worker exit is only
/// reported while a worker is outstanding.
pub open spec fn trace_wf(s: PoolState, evs: Seq<(PoolEvent, u64)>) -> bool
    decreases evs.len(),
{
    if evs.len() == 0 {
        true
    } else {
        &&& evs[0].1 >= s.now
        &&& evs[0].1 <= u64::MAX - COOLDOWN
        &&& (evs[0].0 is WorkerExited ==> s.outstanding >= 1)
        &&& trace_wf(step_spec(s, evs[0].0, evs[0].1).0, evs.drop_first())
    }
}

/// Across any well-formed trace the state stays well-formed and both the
/// clock and the cooldown deadline never move backwards.
pub proof fn lemma_run_monotone(s: PoolState, evs: Seq<(PoolEvent, u64)>)
    requires
        s.wf(),
        trace_wf(s, evs),
    ensures
        run(s, evs).wf(),
        run(s, evs).now >= s.now,
        run(s, evs).next_spawn_at >= s.next_spawn_at,
        s.stopping ==> run(s, evs).stopping && run(s, evs).outstanding <= s.outstanding,
    decreases evs.len(),
{
    if evs.len() > 0 {
        let s1 = step_spec(s, evs[0].0, evs[0].1).0;
        lemma_graceful_drain(s, evs[0].0, evs[0].1);
        lemma_run_monotone(s1, evs.drop_first());
    }
}

/// Two non-emergency spawns are never scheduled less than the cooldown
/// interval apart: a first one at `t1`, followed by any well-formed stretch
/// of events, leaves a state whose next spawn cannot come before
/// `t1 + COOLDOWN`.
pub proof fn lemma_cooldown_respected(
    s: PoolState,
    t1: u64,
    evs: Seq<(PoolEvent, u64)>,
    t2: u64,
)
    requires
        s.wf(),
        t1 >= s.now,
        t1 <= u64::MAX - COOLDOWN,
        step_spec(s, PoolEvent::CooldownExpired, t1).1 == Action::Spawn(false),
        trace_wf(step_spec(s, PoolEvent::CooldownExpired, t1).0, evs),
        step_spec(
            run(step_spec(s, PoolEvent::CooldownExpired, t1).0, evs),
            PoolEvent::CooldownExpired,
            t2,
        ).1 == Action::Spawn(false),
    ensures
        t2 >= t1 + COOLDOWN,
{
    let s1 = step_spec(s, PoolEvent::CooldownExpired, t1).0;
    lemma_graceful_drain(s, PoolEvent::CooldownExpired, t1);
    lemma_run_monotone(s1, evs);
}

/// The bounded ingress queue of commands, identified by id.  Its receive
/// side hands each command to exactly one claimant: a claim removes the
/// command, so no two claims can return the same one.
pub struct CommandQueue {
    /// The queued command ids, oldest first.
    pub items: Vec<u64>,
    /// The queue's fixed capacity.
    pub capacity: usize,
}

/// No id occurs twice.
pub open spec fn distinct(s: Seq<u64>) -> bool {
    forall|i: int, j: int| 0 <= i < j < s.len() ==> s[i] != s[j]
}

/// What one claim returns and leaves behind.
pub open spec fn claim_spec(s: Seq<u64>) -> (Option<u64>, Seq<u64>) {
    if s.len() == 0 {
        (None, s)
    } else {
        (Some(s[0]), s.drop_first())
    }
}

impl CommandQueue {
    /// The queue never exceeds its capacity and never holds an id twice.
    pub open spec fn wf(&self) -> bool {
        self.items@.len() <= self.capacity && distinct(self.items@)
    }

    /// An empty queue of the given capacity.
    pub fn new(capacity: usize) -> (r: CommandQueue)
        ensures
            r.wf(),
            r.capacity == capacity,
            r.items@.len() == 0,
    {
        CommandQueue { items: Vec::new(), capacity }
    }

    /// Offers a command; a full queue refuses it, which is the backpressure
    /// a submitting caller suspends on.
    pub fn submit(&mut self, id: u64) -> (accepted: bool)
        requires
            old(self).wf(),
            !old(self).items@.contains(id),
        ensures
            final(self).wf(),
            final(self).capacity == old(self).capacity,
            accepted <==> old(self).items@.len() < old(self).capacity,
            accepted ==> final(self).items@ == old(self).items@.push(id),
            !accepted ==> final(self).items@ == old(self).items@,
    {
        if self.items.len() < self.capacity {
            self.items.push(id);
            true
        } else {
            false
        }
    }

    /// Claims the oldest command exclusively: the claimant receives it and
    /// it leaves the queue.
    pub fn claim(&mut self) -> (r: Option<u64>)
        requires
            old(self).wf(),
        ensures
            final(self).wf(),
            final(self).capacity == old(self).capacity,
            (r, final(self).items@) == claim_spec(old(self).items@),
    {
        if self.items.len() == 0 {
            None
        } else {
            let id = self.items.remove(0);
            proof {
                assert(self.items@ =~= old(self).items@.drop_first());
            }
            Some(id)
        }
    }
}

/// Exclusive claim: a claimed command is gone from the queue, so a second
/// claim — by whichever task wins it — returns a different command, and each
/// command's reply is produced by exactly one claimant.
pub proof fn lemma_exclusive_claim(s: Seq<u64>)
    requires
        distinct(s),
    ensures
        claim_spec(s).0 is Some ==> !claim_spec(s).1.contains(claim_spec(s).0.unwrap()),
        distinct(claim_spec(s).1),
        claim_spec(s).0 is Some && claim_spec(s).1.len() > 0 ==> claim_spec(
            claim_spec(s).1,
        ).0.unwrap() != claim_spec(s).0.unwrap(),
{
    if s.len() > 0 {
        let rest = s.drop_first();
        assert forall|k: int| 0 <= k < rest.len() implies rest[k] != s[0] by {
            assert(rest[k] == s[k + 1]);
        }
        if rest.contains(s[0]) {
            let k = choose|k: int| 0 <= k < rest.len() && rest[k] == s[0];
            assert(false);
        }
    }
}

} // verus!
