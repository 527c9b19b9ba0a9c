use g_mesh::lock::{
    acquire_singleton_lock, daemon_lock_is_held, inspect_daemon_lock, inspect_daemon_lock_in, stand_down,
    DaemonLock, LockProbe, LockStep, TryLock, SINGLETON_LOCK_RETRY_BUDGET, SINGLETON_LOCK_RETRY_INTERVAL,
};
use g_mesh::time::from_millis;

const HELD: LockProbe = LockProbe::Tried(TryLock::WouldBlock);

#[test]
fn a_contended_lock_is_retried_for_a_while_and_no_longer() {
    assert_eq!(acquire_singleton_lock(TryLock::Taken, 0), LockStep::Acquired);
    assert_eq!(
        acquire_singleton_lock(TryLock::WouldBlock, from_millis(299)),
        LockStep::RetryAfter { interval: SINGLETON_LOCK_RETRY_INTERVAL }
    );
    assert_eq!(acquire_singleton_lock(TryLock::WouldBlock, SINGLETON_LOCK_RETRY_BUDGET), LockStep::Busy);
    assert_eq!(
        acquire_singleton_lock(TryLock::Failed { why: "io".to_string() }, 0),
        LockStep::Fail { why: "io".to_string() }
    );
}

#[test]
fn an_answer_means_serving_whatever_the_lock_says() {
    assert_eq!(inspect_daemon_lock_in(true, LockProbe::Unopenable, None, &Vec::new()), Ok(DaemonLock::Serving));
    let broken = LockProbe::Tried(TryLock::Failed { why: "io".to_string() });
    assert_eq!(inspect_daemon_lock_in(true, broken, None, &Vec::new()), Ok(DaemonLock::Serving));
}

#[test]
fn a_lock_that_nobody_holds_is_free() {
    for probe in [LockProbe::Unopenable, LockProbe::Tried(TryLock::Taken)] {
        assert_eq!(inspect_daemon_lock_in(false, probe, Some("7\n"), &vec![7]), Ok(DaemonLock::Free));
    }
    assert_eq!(daemon_lock_is_held(HELD), Ok(true));
}

#[test]
fn only_a_live_recorded_holder_is_wedged() {
    assert_eq!(inspect_daemon_lock_in(false, HELD, Some("7\n"), &vec![3, 7]), Ok(DaemonLock::Wedged { pid: 7 }));
    assert_eq!(inspect_daemon_lock_in(false, HELD, Some("7\n"), &vec![3]), Ok(DaemonLock::Starting));
    assert_eq!(inspect_daemon_lock_in(false, HELD, Some("7"), &vec![7]), Ok(DaemonLock::Starting));
    assert_eq!(inspect_daemon_lock_in(false, HELD, None, &vec![7]), Ok(DaemonLock::Starting));
}

#[test]
fn a_lock_that_cannot_be_probed_is_not_judged() {
    let broken = LockProbe::Tried(TryLock::Failed { why: "io".to_string() });
    assert_eq!(inspect_daemon_lock_in(false, broken.clone(), None, &Vec::new()), Err("io".to_string()));
    assert_eq!(
        inspect_daemon_lock(Err("no endpoint".to_string()), broken, None, &Vec::new()),
        Err("no endpoint".to_string())
    );
    assert_eq!(inspect_daemon_lock(Ok(false), HELD, None, &Vec::new()), Ok(DaemonLock::Starting));
}

#[test]
fn standing_down_is_an_error_only_before_a_wedged_holder() {
    assert_eq!(
        stand_down(DaemonLock::Wedged { pid: 42 }, "/p"),
        Err("pid 42 holds the daemon lock for /p but is not serving it - nothing can connect to it and no other \
             daemon can take over while it lives; run `g-mesh stop` in that project to clear it"
            .to_string())
    );
    for lock in [DaemonLock::Free, DaemonLock::Serving, DaemonLock::Starting] {
        assert_eq!(
            stand_down(lock, "/p"),
            Ok("g-mesh daemon: another daemon already serves /p - exiting".to_string())
        );
    }
}
