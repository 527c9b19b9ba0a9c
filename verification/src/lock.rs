//! Who may serve a project: the daemon lock, taken with patience and judged
//! from outside.

use vstd::prelude::*;
use vstd::string::*;

use crate::number::{decimal, decimal_text};
use crate::state_files::{owner_in, serving_owner_in};
use crate::time::Duration;

verus! {

/// How long a contended lock is retried: a holder that was just killed lets
/// go of it a moment after it died.
pub const SINGLETON_LOCK_RETRY_BUDGET: Duration = 300_000_000;

/// How long to wait between two tries.
pub const SINGLETON_LOCK_RETRY_INTERVAL: Duration = 20_000_000;

/// What trying to take the lock gave.
#[derive(Clone, Debug, PartialEq, Eq)]
pub enum TryLock {
    Taken,
    WouldBlock,
    Failed { why: String },
}

/// What to do after a try.
#[derive(Clone, Debug, PartialEq, Eq)]
pub enum LockStep {
    /// The lock is held: clear what the last holder recorded, and go on.
    Acquired,
    /// Someone else holds it: stand down.
    Busy,
    /// Wait this long and try again.
    RetryAfter { interval: Duration },
    /// The lock cannot be had.
    Fail { why: String },
}

/// Taking the daemon lock. `waited` is how long ago the first try was.
pub fn acquire_singleton_lock(tried: TryLock, waited: Duration) -> (r: LockStep)
    ensures
        match tried {
            TryLock::Taken => r == LockStep::Acquired,
            TryLock::WouldBlock => if waited >= SINGLETON_LOCK_RETRY_BUDGET {
                r == LockStep::Busy
            } else {
                r == (LockStep::RetryAfter { interval: SINGLETON_LOCK_RETRY_INTERVAL })
            },
            TryLock::Failed { why } => r == (LockStep::Fail { why }),
        },
{
    match tried {
        TryLock::Taken => LockStep::Acquired,
        TryLock::WouldBlock => {
            if waited >= SINGLETON_LOCK_RETRY_BUDGET {
                LockStep::Busy
            } else {
                LockStep::RetryAfter { interval: SINGLETON_LOCK_RETRY_INTERVAL }
            }
        },
        TryLock::Failed { why } => LockStep::Fail { why },
    }
}

/// What holds a project's daemon lock, judged from outside the holder.
#[derive(Clone, Copy, Debug, PartialEq, Eq, Structural)]
pub enum DaemonLock {
    /// Nobody holds it.
    Free,
    /// A daemon that answers holds it.
    Serving,
    /// It is held, and the holder has not said that it serves: nothing may
    /// evict it on this alone.
    Starting,
    /// A live process holds it that said it serves and does not answer.
    Wedged { pid: u32 },
}

/// What probing the lock file gave: whether it could be opened and, then, what
/// taking the lock gave.
#[derive(Clone, Debug, PartialEq, Eq)]
pub enum LockProbe {
    Unopenable,
    Tried(TryLock),
}

/// Whether anything holds the lock. A lock file that cannot be opened is not
/// held: eviction must fail towards leaving processes alone.
pub fn daemon_lock_is_held(probe: LockProbe) -> (r: Result<bool, String>)
    ensures
        match probe {
            LockProbe::Unopenable => r == Ok::<bool, String>(false),
            LockProbe::Tried(TryLock::Taken) => r == Ok::<bool, String>(false),
            LockProbe::Tried(TryLock::WouldBlock) => r == Ok::<bool, String>(true),
            LockProbe::Tried(TryLock::Failed { why }) => r == Err::<bool, String>(why),
        },
{
    match probe {
        LockProbe::Unopenable => Ok(false),
        LockProbe::Tried(TryLock::Taken) => Ok(false),
        LockProbe::Tried(TryLock::WouldBlock) => Ok(true),
        LockProbe::Tried(TryLock::Failed { why }) => Err(why),
    }
}

/// Which of `alive` pids, if any, the record names.
pub open spec fn live_owner(record: Option<Seq<char>>, alive: Seq<u32>) -> Option<nat> {
    match record {
        Some(text) => match owner_in(text) {
            Some(pid) => if exists|i: int| 0 <= i < alive.len() && #[trigger] alive[i] as nat == pid {
                Some(pid)
            } else {
                None
            },
            None => None,
        },
        None => None,
    }
}

/// The judgement: an answer means healthy, a free lock means nobody, and a held
/// one is wedged only if a live process said it was serving.
pub open spec fn judged(
    listening: bool,
    held: bool,
    record: Option<Seq<char>>,
    alive: Seq<u32>,
) -> DaemonLock {
    if listening {
        DaemonLock::Serving
    } else if !held {
        DaemonLock::Free
    } else {
        match live_owner(record, alive) {
            Some(pid) => DaemonLock::Wedged { pid: pid as u32 },
            None => DaemonLock::Starting,
        }
    }
}

fn is_alive(alive: &Vec<u32>, pid: u32) -> (r: bool)
    ensures
        r == (exists|i: int| 0 <= i < alive@.len() && #[trigger] alive@[i] == pid),
{
    let mut i: usize = 0;
    while i < alive.len()
        invariant
            i <= alive.len(),
            forall|j: int| 0 <= j < i ==> #[trigger] alive@[j] != pid,
        decreases alive.len() - i,
    {
        if alive[i] == pid {
            return true;
        }
        i += 1;
    }
    false
}

/// Judges the lock, given whether anything answers on the project's endpoint.
/// `record` is what the holder's record says, `alive` the pids that are known
/// to be alive.
pub fn inspect_daemon_lock_in(
    listening: bool,
    probe: LockProbe,
    record: Option<&str>,
    alive: &Vec<u32>,
) -> (r: Result<DaemonLock, String>)
    ensures
        match r {
            Ok(lock) => listening || !(probe matches LockProbe::Tried(TryLock::Failed { why })),
            Err(e) => !listening && probe == LockProbe::Tried(TryLock::Failed { why: e }),
        },
        r matches Ok(lock) ==> lock == judged(
            listening,
            probe == LockProbe::Tried(TryLock::WouldBlock),
            crate::text::opt_view(record),
            alive@,
        ),
{
    if listening {
        return Ok(DaemonLock::Serving);
    }
    match daemon_lock_is_held(probe) {
        Err(why) => Err(why),
        Ok(held) => {
            if !held {
                return Ok(DaemonLock::Free);
            }
            match serving_owner_in(record) {
                Some(pid) => {
                    if is_alive(alive, pid) {
                        Ok(DaemonLock::Wedged { pid })
                    } else {
                        Ok(DaemonLock::Starting)
                    }
                },
                None => Ok(DaemonLock::Starting),
            }
        },
    }
}

/// Judges a project's lock. Whether anything answers may itself be unknown:
/// then so is the judgement.
pub fn inspect_daemon_lock(
    listening: Result<bool, String>,
    probe: LockProbe,
    record: Option<&str>,
    alive: &Vec<u32>,
) -> (r: Result<DaemonLock, String>)
    ensures
        match (listening, r) {
            (Err(why), Err(e)) => e == why,
            (Err(_), Ok(_)) => false,
            (Ok(answers), Err(e)) => !answers && probe == LockProbe::Tried(TryLock::Failed { why: e }),
            (Ok(answers), Ok(lock)) => (answers || !(probe matches LockProbe::Tried(
                TryLock::Failed { why },
            ))) && lock == judged(
                answers,
                probe == LockProbe::Tried(TryLock::WouldBlock),
                crate::text::opt_view(record),
                alive@,
            ),
        },
{
    match listening {
        Ok(answers) => inspect_daemon_lock_in(answers, probe, record, alive),
        Err(why) => Err(why),
    }
}

/// What a daemon that did not get the lock does: it leaves in good order,
/// unless the holder is wedged, which is an error that names the holder.
pub fn stand_down(lock: DaemonLock, root: &str) -> (r: Result<String, String>)
    ensures
        match lock {
            DaemonLock::Wedged { pid } => r is Err && r->Err_0@ == "pid "@ + decimal(pid as nat)
                + " holds the daemon lock for "@ + root@
                + " but is not serving it - nothing can connect to it and no other daemon can take over while it lives; run `g-mesh stop` in that project to clear it"@,
            _ => r is Ok && r->Ok_0@ == "g-mesh daemon: another daemon already serves "@ + root@
                + " - exiting"@,
        },
{
    match lock {
        DaemonLock::Wedged { pid } => {
            let mut r: String = "pid ".to_owned();
            r.append(decimal_text(pid as u128).as_str());
            r.append(" holds the daemon lock for ");
            r.append(root);
            r.append(
                " but is not serving it - nothing can connect to it and no other daemon can take over while it lives; run `g-mesh stop` in that project to clear it",
            );
            Err(r)
        },
        _ => {
            let mut r: String = "g-mesh daemon: another daemon already serves ".to_owned();
            r.append(root);
            r.append(" - exiting");
            Ok(r)
        },
    }
}

/// Only a process that is alive, that said it serves and does not answer is
/// ever called wedged: a holder that recorded nothing, or only a part of a
/// record, is left alone.
pub proof fn only_a_live_silent_server_is_wedged(
    listening: bool,
    held: bool,
    record: Option<Seq<char>>,
    alive: Seq<u32>,
    pid: u32,
)
    ensures
        judged(listening, held, record, alive) == (DaemonLock::Wedged { pid }) <==> {
            &&& !listening
            &&& held
            &&& record is Some
            &&& owner_in(record->0) == Some(pid as nat)
            &&& alive.contains(pid)
        },
{
    if judged(listening, held, record, alive) == (DaemonLock::Wedged { pid }) {
        let i = choose|i: int|
            0 <= i < alive.len() && #[trigger] alive[i] as nat == owner_in(record->0)->0;
        assert(alive[i] == pid);
    }
    if alive.contains(pid) {
        let i = choose|i: int| 0 <= i < alive.len() && alive[i] == pid;
        assert(alive[i] as nat == pid as nat);
    }
}

} // verus!
