use pathfinder::{bootstrap, Action, CommandQueue, PoolEvent, PoolState, StatusEvent, COOLDOWN};

#[test]
fn bootstrap_fails_fast() {
    // A deterministic first-launch failure aborts startup, whatever the target size.
    let r = bootstrap(StatusEvent::Failed(None));
    assert!(r.is_err());
    let r = bootstrap(StatusEvent::Failed(Some(7)));
    assert!(matches!(r, Err(e) if e.worker == Some(7)));
}

#[test]
fn bootstrap_succeeds_on_launch() {
    let r = bootstrap(StatusEvent::Launched(42));
    assert!(r.is_ok());
}

#[test]
fn scenario_three_workers_recover() {
    // desired_count = 3; the first worker launches, so start returns Ok.
    assert!(bootstrap(StatusEvent::Launched(1)).is_ok());
    let mut s = PoolState::new(3, 0);

    // the remaining two workers are spawned as the cooldown expires
    assert!(matches!(s.step(PoolEvent::CooldownExpired, 1), Action::Spawn(false)));
    assert!(matches!(s.step(PoolEvent::CooldownExpired, 2), Action::Spawn(false)));
    assert_eq!(s.outstanding, 3);

    // workers 2 and 3 are killed externally within the same instant
    assert!(matches!(s.step(PoolEvent::WorkerExited, 3), Action::DoNothing));
    assert!(matches!(s.step(PoolEvent::WorkerExited, 3), Action::DoNothing));
    assert_eq!(s.outstanding, 1);

    // the count dropped but not to zero: recovery waits for the cooldown,
    // then tops the pool back up to 3
    assert!(matches!(s.step(PoolEvent::CooldownExpired, 4), Action::Spawn(false)));
    assert!(matches!(s.step(PoolEvent::CooldownExpired, 5), Action::Spawn(false)));
    assert_eq!(s.outstanding, 3);

    // at the target no further spawns happen
    assert!(matches!(s.step(PoolEvent::CooldownExpired, 6), Action::DoNothing));
    assert_eq!(s.outstanding, 3);
}

#[test]
fn emergency_respawn_on_empty_pool() {
    let mut s = PoolState::new(2, 0);
    // the only worker dies: an immediate spawn, bypassing the cooldown
    let a = s.step(PoolEvent::WorkerExited, 0);
    assert!(matches!(a, Action::Spawn(true)));
    assert_eq!(s.outstanding, 1);
}

#[test]
fn cooldown_gates_spawns() {
    let mut s = PoolState::new(3, 0);
    // the cooldown armed at startup has not yet elapsed at tick 0
    assert!(matches!(s.step(PoolEvent::CooldownExpired, 0), Action::DoNothing));
    // after one interval the spawn goes through and re-arms the timer
    assert!(matches!(s.step(PoolEvent::CooldownExpired, COOLDOWN), Action::Spawn(false)));
    assert!(matches!(s.step(PoolEvent::CooldownExpired, COOLDOWN), Action::DoNothing));
    assert!(matches!(s.step(PoolEvent::CooldownExpired, 2 * COOLDOWN), Action::Spawn(false)));
}

#[test]
fn no_spawns_after_stop() {
    let mut s = PoolState::new(3, 0);
    assert!(matches!(s.step(PoolEvent::StopRequested, 1), Action::BeginShutdown));
    assert!(s.stopping);
    assert!(!s.done);
    // a worker exit during shutdown is not replaced
    assert!(matches!(s.step(PoolEvent::WorkerExited, 2), Action::DoNothing));
    assert!(matches!(s.step(PoolEvent::CooldownExpired, 3), Action::DoNothing));
    assert_eq!(s.outstanding, 0);
    // the pool counts as drained only once every worker has exited
    assert!(s.done);
}

#[test]
fn status_events_are_bookkeeping_only() {
    let mut s = PoolState::new(2, 0);
    let before = s.outstanding;
    assert!(matches!(
        s.step(PoolEvent::Status(StatusEvent::Handled(1, 10, true)), 1),
        Action::DoNothing
    ));
    assert!(matches!(
        s.step(PoolEvent::Status(StatusEvent::Failed(Some(1))), 2),
        Action::DoNothing
    ));
    assert_eq!(s.outstanding, before);
}

#[test]
fn queue_claims_are_exclusive() {
    let mut q = CommandQueue::new(2);
    assert!(q.submit(10));
    assert!(q.submit(11));
    // a full queue refuses the submission: backpressure toward the caller
    assert!(!q.submit(12));
    // each command is claimed exactly once, in order, by one winner
    assert_eq!(q.claim(), Some(10));
    assert_eq!(q.claim(), Some(11));
    assert_eq!(q.claim(), None);
}

#[test]
fn scenario_submit_waits_for_replacement() {
    // submit one command while every worker has crashed: the command stays
    // queued, a replacement is spawned at once, and only then is it claimed
    let mut q = CommandQueue::new(1);
    assert!(q.submit(99));

    let mut s = PoolState::new(1, 0);
    let a = s.step(PoolEvent::WorkerExited, 1);
    assert!(matches!(a, Action::Spawn(true)));
    assert_eq!(s.outstanding, 1);

    // the replacement worker claims the still-queued command
    assert_eq!(q.claim(), Some(99));
    assert_eq!(q.claim(), None);
}
