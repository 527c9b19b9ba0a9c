//! The resident memory of one plugin's whole process tree, out of one snapshot
//! of the machine's processes.
//!
//! A sample is one instant: the tree's membership changes from one snapshot
//! to the next, so a sample carries its own members beside their total, and a
//! question about one member is asked of the sample that holds it.

use vstd::prelude::*;

verus! {

/// How many bytes a mebibyte has.
pub const BYTES_PER_MB: u64 = 1024 * 1024;

/// One process of a snapshot.
#[derive(Clone, Copy, Debug, PartialEq, Eq)]
pub struct ProcessRecord {
    pub pid: u32,
    pub parent: Option<u32>,
    pub memory: u64,
}

/// Whether no two processes of the snapshot have the same pid.
pub open spec fn distinct_pids(snapshot: Seq<ProcessRecord>) -> bool {
    forall|i: int, j: int|
        0 <= i < j < snapshot.len() ==> #[trigger] snapshot[i].pid != #[trigger] snapshot[j].pid
}

/// Whether the snapshot holds a process with this pid.
pub open spec fn is_running(snapshot: Seq<ProcessRecord>, pid: u32) -> bool {
    exists|i: int| 0 <= i < snapshot.len() && #[trigger] snapshot[i].pid == pid
}

/// Whether `child` is a process of the snapshot whose parent is `parent`.
pub open spec fn is_child(snapshot: Seq<ProcessRecord>, parent: u32, child: u32) -> bool {
    exists|i: int|
        0 <= i < snapshot.len() && #[trigger] snapshot[i].pid == child && snapshot[i].parent == Some(parent)
}

/// Whether `pid` is `generations` steps below `root`.
pub open spec fn is_below(snapshot: Seq<ProcessRecord>, root: u32, pid: u32, generations: nat) -> bool
    decreases generations,
{
    if generations == 0 {
        pid == root
    } else {
        exists|parent: u32|
            #[trigger] is_child(snapshot, parent, pid) && is_below(
                snapshot,
                root,
                parent,
                (generations - 1) as nat,
            )
    }
}

/// Whether `pid` is `root` or one of its descendants, of any generation.
pub open spec fn in_tree(snapshot: Seq<ProcessRecord>, root: u32, pid: u32) -> bool {
    exists|generations: nat| #[trigger] is_below(snapshot, root, pid, generations)
}

/// The memory of `members`, summed.
pub open spec fn sum_of(members: Seq<(u32, u64)>) -> nat
    decreases members.len(),
{
    if members.len() == 0 {
        0
    } else {
        sum_of(members.drop_last()) + members.last().1 as nat
    }
}

/// Whether `pid` is one of the members.
pub open spec fn has_member(members: Seq<(u32, u64)>, pid: u32) -> bool {
    exists|i: int| 0 <= i < members.len() && #[trigger] members[i].0 == pid
}

/// The resident memory of one process tree at one instant: each process that
/// was part of it, and their total.
#[derive(Clone, Debug, PartialEq, Eq)]
pub struct ProcessTreeSample {
    pub members: Vec<(u32, u64)>,
    pub total_bytes: u64,
}

impl ProcessTreeSample {
    /// Whether this is what the tree below `root` was in `snapshot`: the root
    /// first, then every descendant once, each after its parent and with its
    /// own memory, and a total that is their sum or, where that does not fit,
    /// the largest number that does.
    pub open spec fn measures(self, snapshot: Seq<ProcessRecord>, root: u32) -> bool {
        let members = self.members@;
        &&& members.len() > 0
        &&& members[0].0 == root
        &&& forall|pid: u32| #[trigger] has_member(members, pid) <==> in_tree(snapshot, root, pid)
        &&& forall|i: int, j: int|
            0 <= i < j < members.len() ==> #[trigger] members[i].0 != #[trigger] members[j].0
        &&& forall|i: int, k: int|
            0 <= i < members.len() && 0 <= k < snapshot.len() && #[trigger] members[i].0
                == #[trigger] snapshot[k].pid ==> members[i].1 == snapshot[k].memory
        &&& forall|i: int|
            0 < i < members.len() ==> #[trigger] follows_parent(snapshot, members, i)
        &&& self.total_bytes as int == if sum_of(members) <= u64::MAX {
            sum_of(members) as int
        } else {
            u64::MAX as int
        }
    }

    /// The whole tree's resident memory, in bytes.
    pub fn rss_bytes(&self) -> (r: u64)
        ensures
            r == self.total_bytes,
    {
        self.total_bytes
    }

    /// The whole tree's resident memory in mebibytes, rounded down.
    pub fn rss_mb(&self) -> (r: u64)
        ensures
            r == self.total_bytes / BYTES_PER_MB,
    {
        self.total_bytes / BYTES_PER_MB
    }

    /// Whether `pid` was part of the tree.
    pub fn contains(&self, pid: u32) -> (r: bool)
        ensures
            r == has_member(self.members@, pid),
    {
        self.find(pid) < self.members.len()
    }

    /// The resident memory of `pid`, if it was part of the tree.
    pub fn rss_bytes_of(&self, pid: u32) -> (r: Option<u64>)
        ensures
            r is Some <==> has_member(self.members@, pid),
            r matches Some(bytes) ==> exists|i: int|
                #![trigger self.members@[i]]
                0 <= i < self.members@.len() && self.members@[i] == (pid, bytes) && forall|j: int|
                    0 <= j < i ==> (#[trigger] self.members@[j]).0 != pid,
    {
        let at = self.find(pid);
        if at < self.members.len() {
            let bytes: u64 = self.members[at].1;
            proof {
                assert(self.members@[at as int] == (pid, bytes));
            }
            Some(bytes)
        } else {
            None
        }
    }

    /// Every process of the tree with its resident memory in bytes, the root
    /// first.
    pub fn members(&self) -> (r: &Vec<(u32, u64)>)
        ensures
            r@ == self.members@,
    {
        &self.members
    }

    /// The index of the first member with this pid; their number if none has it.
    fn find(&self, pid: u32) -> (at: usize)
        ensures
            at <= self.members@.len(),
            at < self.members@.len() <==> has_member(self.members@, pid),
            at < self.members@.len() ==> self.members@[at as int].0 == pid,
            forall|j: int| 0 <= j < at ==> (#[trigger] self.members@[j]).0 != pid,
    {
        let mut at: usize = 0;
        while at < self.members.len()
            invariant
                at <= self.members.len(),
                forall|j: int| 0 <= j < at ==> (#[trigger] self.members@[j]).0 != pid,
            decreases self.members.len() - at,
        {
            if self.members[at].0 == pid {
                return at;
            }
            at += 1;
        }
        at
    }
}

/// Whether the parent of member `i` stands among the members before it.
pub open spec fn follows_parent(
    snapshot: Seq<ProcessRecord>,
    members: Seq<(u32, u64)>,
    i: int,
) -> bool {
    exists|j: int| 0 <= j < i && is_child(snapshot, (#[trigger] members[j]).0, members[i].0)
}

/// A process of the tree is a running process, once its root is.
pub proof fn tree_is_running(snapshot: Seq<ProcessRecord>, root: u32, pid: u32)
    requires
        is_running(snapshot, root),
        in_tree(snapshot, root, pid),
    ensures
        is_running(snapshot, pid),
{
    let n = choose|n: nat| is_below(snapshot, root, pid, n);
    if n > 0 {
        let parent = choose|parent: u32|
            #[trigger] is_child(snapshot, parent, pid) && is_below(
                snapshot,
                root,
                parent,
                (n - 1) as nat,
            );
        assert(is_child(snapshot, parent, pid));
    }
}

proof fn lemma_child_in_tree(snapshot: Seq<ProcessRecord>, root: u32, parent: u32, child: u32)
    requires
        in_tree(snapshot, root, parent),
        is_child(snapshot, parent, child),
    ensures
        in_tree(snapshot, root, child),
{
    let n = choose|n: nat| is_below(snapshot, root, parent, n);
    assert(is_below(snapshot, root, child, n + 1));
}

/// A set of members that holds the root and every child of a member holds the
/// whole tree.
proof fn lemma_closed_is_whole(
    snapshot: Seq<ProcessRecord>,
    root: u32,
    members: Seq<(u32, u64)>,
    pid: u32,
    n: nat,
)
    requires
        has_member(members, root),
        forall|parent: u32, child: u32|
            has_member(members, parent) && #[trigger] is_child(snapshot, parent, child) ==> has_member(
                members,
                child,
            ),
        is_below(snapshot, root, pid, n),
    ensures
        has_member(members, pid),
    decreases n,
{
    if n > 0 {
        let parent = choose|parent: u32|
            #[trigger] is_child(snapshot, parent, pid) && is_below(
                snapshot,
                root,
                parent,
                (n - 1) as nat,
            );
        lemma_closed_is_whole(snapshot, root, members, parent, (n - 1) as nat);
    }
}

/// Members of a snapshot are no more than its processes.
proof fn lemma_members_fit(snapshot: Seq<ProcessRecord>, members: Seq<(u32, u64)>)
    requires
        forall|i: int| 0 <= i < members.len() ==> is_running(snapshot, (#[trigger] members[i]).0),
        forall|i: int, j: int|
            0 <= i < j < members.len() ==> #[trigger] members[i].0 != #[trigger] members[j].0,
    ensures
        members.len() <= snapshot.len(),
{
    let own = members.map_values(|m: (u32, u64)| m.0);
    let all = snapshot.map_values(|r: ProcessRecord| r.pid);
    assert(own.no_duplicates());
    own.unique_seq_to_set();
    all.lemma_cardinality_of_set();
    assert(own.to_set().subset_of(all.to_set())) by {
        assert forall|pid: u32| own.to_set().contains(pid) implies all.to_set().contains(pid) by {
            let i = choose|i: int| 0 <= i < own.len() && own[i] == pid;
            assert(is_running(snapshot, members[i].0));
            let k = choose|k: int| 0 <= k < snapshot.len() && #[trigger] snapshot[k].pid == pid;
            assert(all[k] == pid);
        }
    }
    vstd::set_lib::lemma_len_subset(own.to_set(), all.to_set());
}

/// Whether `members` are processes of the tree below `root`, each once, each
/// with its own memory and after its parent, and the root first.
spec fn are_members(snapshot: Seq<ProcessRecord>, root: u32, members: Seq<(u32, u64)>) -> bool {
    &&& members.len() > 0 ==> members[0].0 == root
    &&& forall|i: int| 0 <= i < members.len() ==> in_tree(snapshot, root, (#[trigger] members[i]).0)
    &&& forall|i: int, j: int|
        0 <= i < j < members.len() ==> #[trigger] members[i].0 != #[trigger] members[j].0
    &&& forall|i: int, k: int|
        0 <= i < members.len() && 0 <= k < snapshot.len() && #[trigger] members[i].0
            == #[trigger] snapshot[k].pid ==> members[i].1 == snapshot[k].memory
    &&& forall|i: int| 0 < i < members.len() ==> #[trigger] follows_parent(snapshot, members, i)
}

/// Whether a member is the parent of `pid`.
spec fn is_below_member(snapshot: Seq<ProcessRecord>, members: Seq<(u32, u64)>, pid: u32) -> bool {
    exists|j: int| 0 <= j < members.len() && is_child(snapshot, (#[trigger] members[j]).0, pid)
}

/// Whether what waits is in the tree, below a member once there is one.
spec fn may_wait(
    snapshot: Seq<ProcessRecord>,
    root: u32,
    members: Seq<(u32, u64)>,
    waiting: Seq<u32>,
) -> bool {
    forall|k: int|
        0 <= k < waiting.len() ==> in_tree(snapshot, root, #[trigger] waiting[k]) && (members.len() > 0
            ==> is_below_member(snapshot, members, waiting[k]))
}

/// Whether every child of a member is a member or waits.
spec fn none_forgotten(
    snapshot: Seq<ProcessRecord>,
    members: Seq<(u32, u64)>,
    waiting: Seq<u32>,
) -> bool {
    forall|parent: u32, child: u32|
        has_member(members, parent) && #[trigger] is_child(snapshot, parent, child) ==> has_member(
            members,
            child,
        ) || waiting.contains(child)
}

/// A process that is a member need not wait any longer.
proof fn lemma_member_skipped(snapshot: Seq<ProcessRecord>, members: Seq<(u32, u64)>, waiting: Seq<u32>)
    requires
        none_forgotten(snapshot, members, waiting),
        waiting.len() > 0,
        has_member(members, waiting.last()),
    ensures
        none_forgotten(snapshot, members, waiting.drop_last()),
{
    assert forall|parent: u32, child: u32|
        has_member(members, parent) && #[trigger] is_child(snapshot, parent, child) implies has_member(
        members,
        child,
    ) || waiting.drop_last().contains(child) by {
        if !has_member(members, child) {
            let k = choose|k: int| 0 <= k < waiting.len() && waiting[k] == child;
            assert(waiting.drop_last()[k] == child);
        }
    }
}

/// A process of the tree that is below a member, or the root as the first, can
/// be added to the members.
proof fn lemma_member_added(
    snapshot: Seq<ProcessRecord>,
    root: u32,
    before: Seq<(u32, u64)>,
    at: int,
)
    requires
        distinct_pids(snapshot),
        is_running(snapshot, root),
        are_members(snapshot, root, before),
        0 <= at < snapshot.len(),
        in_tree(snapshot, root, snapshot[at].pid),
        !has_member(before, snapshot[at].pid),
        if before.len() == 0 {
            snapshot[at].pid == root
        } else {
            is_below_member(snapshot, before, snapshot[at].pid)
        },
    ensures
        are_members(snapshot, root, before.push((snapshot[at].pid, snapshot[at].memory))),
        before.len() < snapshot.len(),
{
    let pid = snapshot[at].pid;
    let now = before.push((pid, snapshot[at].memory));
    assert forall|i: int, j: int| 0 <= i < j < now.len() implies #[trigger] now[i].0 != #[trigger] now[j].0 by {
        if j == before.len() && now[i].0 == pid {
            assert(before[i].0 == pid);
        }
    }
    assert forall|i: int, k: int|
        0 <= i < now.len() && 0 <= k < snapshot.len() && #[trigger] now[i].0
            == #[trigger] snapshot[k].pid implies now[i].1 == snapshot[k].memory by {
        if i < before.len() {
            assert(before[i].0 == snapshot[k].pid);
        }
    }
    assert forall|i: int| 0 < i < now.len() implies #[trigger] follows_parent(snapshot, now, i) by {
        if i < before.len() {
            assert(follows_parent(snapshot, before, i));
            let j = choose|j: int| 0 <= j < i && is_child(snapshot, (#[trigger] before[j]).0, before[i].0);
            assert(is_child(snapshot, now[j].0, now[i].0));
        } else {
            let j = choose|j: int| 0 <= j < before.len() && is_child(snapshot, (#[trigger] before[j]).0, pid);
            assert(is_child(snapshot, now[j].0, now[i].0));
        }
    }
    assert forall|i: int| 0 <= i < now.len() implies is_running(snapshot, (#[trigger] now[i]).0) by {
        tree_is_running(snapshot, root, now[i].0);
    }
    lemma_members_fit(snapshot, now);
}

/// Once a process is a member and its children wait, what waits still may, and
/// none is forgotten.
proof fn lemma_children_wait(
    snapshot: Seq<ProcessRecord>,
    root: u32,
    before: Seq<(u32, u64)>,
    waiting: Seq<u32>,
    member: (u32, u64),
    children: Seq<u32>,
)
    requires
        waiting.len() > 0,
        waiting.last() == member.0,
        before.len() == 0 ==> waiting.len() == 1,
        may_wait(snapshot, root, before, waiting),
        none_forgotten(snapshot, before, waiting),
        forall|j: int| 0 <= j < children.len() ==> is_child(snapshot, member.0, #[trigger] children[j]),
        forall|child: u32| #[trigger] is_child(snapshot, member.0, child) ==> children.contains(child),
    ensures
        may_wait(snapshot, root, before.push(member), waiting.drop_last() + children),
        none_forgotten(snapshot, before.push(member), waiting.drop_last() + children),
{
    let now = before.push(member);
    let rest = waiting.drop_last();
    let after = rest + children;
    assert(in_tree(snapshot, root, waiting[waiting.len() - 1]));
    assert forall|k: int| 0 <= k < after.len() implies in_tree(snapshot, root, #[trigger] after[k]) && (
    now.len() > 0 ==> is_below_member(snapshot, now, after[k])) by {
        if k < rest.len() {
            assert(after[k] == waiting[k]);
            let j = choose|j: int|
                0 <= j < before.len() && is_child(snapshot, (#[trigger] before[j]).0, waiting[k]);
            assert(is_child(snapshot, now[j].0, after[k]));
        } else {
            assert(after[k] == children[k - rest.len()]);
            lemma_child_in_tree(snapshot, root, member.0, after[k]);
            assert(is_child(snapshot, now[before.len() as int].0, after[k]));
        }
    }
    assert forall|parent: u32, child: u32|
        has_member(now, parent) && #[trigger] is_child(snapshot, parent, child) implies has_member(
        now,
        child,
    ) || after.contains(child) by {
        if parent == member.0 {
            let k = choose|k: int| 0 <= k < children.len() && children[k] == child;
            assert(after[rest.len() + k] == child);
        } else {
            let p = choose|p: int| 0 <= p < now.len() && #[trigger] now[p].0 == parent;
            assert(before[p].0 == parent);
            if has_member(before, child) {
                let m = choose|m: int| 0 <= m < before.len() && #[trigger] before[m].0 == child;
                assert(now[m].0 == child);
            } else {
                let m = choose|m: int| 0 <= m < waiting.len() && waiting[m] == child;
                if m == rest.len() {
                    assert(now[before.len() as int].0 == child);
                } else {
                    assert(after[m] == child);
                }
            }
        }
    }
}

/// The processes whose parent is `pid`.
fn children_of(snapshot: &Vec<ProcessRecord>, pid: u32) -> (r: Vec<u32>)
    ensures
        forall|j: int| 0 <= j < r@.len() ==> is_child(snapshot@, pid, #[trigger] r@[j]),
        forall|child: u32| #[trigger] is_child(snapshot@, pid, child) ==> r@.contains(child),
{
    let mut r: Vec<u32> = Vec::new();
    let mut k: usize = 0;
    while k < snapshot.len()
        invariant
            k <= snapshot.len(),
            forall|j: int| 0 <= j < r@.len() ==> is_child(snapshot@, pid, #[trigger] r@[j]),
            forall|j: int|
                0 <= j < k && (#[trigger] snapshot@[j]).parent == Some(pid) ==> r@.contains(snapshot@[j].pid),
        decreases snapshot.len() - k,
    {
        let is_kid: bool = match snapshot[k].parent {
            Some(parent) => parent == pid,
            None => false,
        };
        if is_kid {
            let ghost before = r@;
            let kid: u32 = snapshot[k].pid;
            r.push(kid);
            proof {
                assert(is_child(snapshot@, pid, kid));
                assert(r@[before.len() as int] == kid);
                assert forall|j: int|
                    0 <= j < k && (#[trigger] snapshot@[j]).parent == Some(pid) implies r@.contains(
                    snapshot@[j].pid,
                ) by {
                    let m = choose|m: int| 0 <= m < before.len() && before[m] == snapshot@[j].pid;
                    assert(r@[m] == snapshot@[j].pid);
                }
            }
        }
        k += 1;
    }
    proof {
        assert forall|child: u32| #[trigger] is_child(snapshot@, pid, child) implies r@.contains(child) by {
            let c = choose|c: int|
                0 <= c < snapshot@.len() && #[trigger] snapshot@[c].pid == child && snapshot@[c].parent
                    == Some(pid);
            assert(r@.contains(snapshot@[c].pid));
        }
    }
    r
}

/// The process tree below `root_pid` in `snapshot`; nothing if `root_pid` is
/// not running in it.
pub fn process_tree_sample(snapshot: &Vec<ProcessRecord>, root_pid: u32) -> (r: Option<ProcessTreeSample>)
    requires
        distinct_pids(snapshot@),
    ensures
        r is Some <==> is_running(snapshot@, root_pid),
        r matches Some(sample) ==> sample.measures(snapshot@, root_pid),
{
    let ghost snap = snapshot@;
    if find_process(snapshot, root_pid) == snapshot.len() {
        return None;
    }
    let mut members: Vec<(u32, u64)> = Vec::new();
    let mut total_bytes: u64 = 0;
    let mut stack: Vec<u32> = Vec::new();
    stack.push(root_pid);
    proof {
        assert(is_below(snap, root_pid, root_pid, 0));
    }
    while stack.len() > 0
        invariant
            snap == snapshot@,
            distinct_pids(snap),
            is_running(snap, root_pid),
            members@.len() <= snap.len(),
            members@.len() == 0 ==> stack@ == seq![root_pid],
            are_members(snap, root_pid, members@),
            may_wait(snap, root_pid, members@, stack@),
            none_forgotten(snap, members@, stack@),
            total_bytes as int == if sum_of(members@) <= u64::MAX {
                sum_of(members@) as int
            } else {
                u64::MAX as int
            },
        decreases snap.len() - members@.len(), stack@.len(),
    {
        let ghost waiting = stack@;
        let ghost before = members@;
        let pid: u32 = stack.pop().unwrap();
        proof {
            assert(pid == waiting[waiting.len() - 1]);
            assert(stack@ =~= waiting.drop_last());
        }
        if has_pid(&members, pid) {
            proof {
                lemma_member_skipped(snap, before, waiting);
            }
            continue;
        }
        proof {
            tree_is_running(snap, root_pid, pid);
        }
        let at = find_process(snapshot, pid);
        let bytes: u64 = snapshot[at].memory;
        total_bytes = total_bytes.saturating_add(bytes);
        members.push((pid, bytes));
        let mut children = children_of(snapshot, pid);
        proof {
            assert(members@.drop_last() =~= before);
            lemma_member_added(snap, root_pid, before, at as int);
            lemma_children_wait(snap, root_pid, before, waiting, (pid, bytes), children@);
        }
        stack.append(&mut children);
    }
    proof {
        assert(members@.len() > 0);
        assert forall|pid: u32| #[trigger] has_member(members@, pid) <==> in_tree(snap, root_pid, pid) by {
            if in_tree(snap, root_pid, pid) {
                let n = choose|n: nat| is_below(snap, root_pid, pid, n);
                lemma_closed_is_whole(snap, root_pid, members@, pid, n);
            }
        }
    }
    Some(ProcessTreeSample { members, total_bytes })
}

/// The index of the process with this pid; the number of processes if none has it.
fn find_process(snapshot: &Vec<ProcessRecord>, pid: u32) -> (at: usize)
    ensures
        at <= snapshot@.len(),
        at < snapshot@.len() <==> is_running(snapshot@, pid),
        at < snapshot@.len() ==> snapshot@[at as int].pid == pid,
{
    let mut at: usize = 0;
    while at < snapshot.len()
        invariant
            at <= snapshot.len(),
            forall|j: int| 0 <= j < at ==> (#[trigger] snapshot@[j]).pid != pid,
        decreases snapshot.len() - at,
    {
        if snapshot[at].pid == pid {
            return at;
        }
        at += 1;
    }
    at
}

fn has_pid(members: &Vec<(u32, u64)>, pid: u32) -> (r: bool)
    ensures
        r == has_member(members@, pid),
{
    let mut at: usize = 0;
    while at < members.len()
        invariant
            at <= members.len(),
            forall|j: int| 0 <= j < at ==> (#[trigger] members@[j]).0 != pid,
        decreases members.len() - at,
    {
        if members[at].0 == pid {
            return true;
        }
        at += 1;
    }
    false
}

/// The resident memory of the process tree below `root_pid`, in mebibytes;
/// nothing if `root_pid` is not running.
pub fn process_tree_rss_mb(snapshot: &Vec<ProcessRecord>, root_pid: u32) -> (r: Option<u64>)
    requires
        distinct_pids(snapshot@),
    ensures
        r is Some <==> is_running(snapshot@, root_pid),
        r matches Some(mb) ==> exists|sample: ProcessTreeSample|
            #[trigger] sample.measures(snapshot@, root_pid) && mb == sample.total_bytes / BYTES_PER_MB,
{
    match process_tree_sample(snapshot, root_pid) {
        Some(sample) => {
            let mb: u64 = sample.rss_mb();
            proof {
                assert(sample.measures(snapshot@, root_pid));
            }
            Some(mb)
        },
        None => None,
    }
}

proof fn lemma_sum_without(members: Seq<(u32, u64)>, i: int)
    requires
        0 <= i < members.len(),
    ensures
        sum_of(members) == sum_of(members.remove(i)) + members[i].1,
    decreases members.len(),
{
    let rest = members.remove(i);
    if i == members.len() - 1 {
        assert(rest =~= members.drop_last());
    } else {
        let front = members.drop_last();
        lemma_sum_without(front, i);
        assert(rest.drop_last() =~= front.remove(i));
        assert(rest.last() == members.last());
    }
}

proof fn lemma_sums_agree(a: Seq<(u32, u64)>, b: Seq<(u32, u64)>)
    requires
        forall|i: int, j: int| 0 <= i < j < a.len() ==> #[trigger] a[i].0 != #[trigger] a[j].0,
        forall|i: int, j: int| 0 <= i < j < b.len() ==> #[trigger] b[i].0 != #[trigger] b[j].0,
        forall|m: (u32, u64)| a.contains(m) <==> b.contains(m),
    ensures
        sum_of(a) == sum_of(b),
    decreases a.len(),
{
    if a.len() == 0 {
        if b.len() > 0 {
            assert(b.contains(b[0]));
        }
    } else {
        let last = a.last();
        assert(a.contains(last));
        let k = choose|k: int| 0 <= k < b.len() && b[k] == last;
        let fa = a.drop_last();
        let fb = b.remove(k);
        lemma_sum_without(b, k);
        assert forall|m: (u32, u64)| fa.contains(m) <==> fb.contains(m) by {
            if fa.contains(m) {
                let i = choose|i: int| 0 <= i < fa.len() && fa[i] == m;
                assert(a[i] == m && m.0 != last.0);
                assert(a.contains(m));
                let j = choose|j: int| 0 <= j < b.len() && b[j] == m;
                assert(fb[if j < k { j } else { j - 1 }] == m);
            }
            if fb.contains(m) {
                let j = choose|j: int| 0 <= j < fb.len() && fb[j] == m;
                let bj = if j < k { j } else { j + 1 };
                assert(b[bj] == m);
                assert(m.0 != last.0);
                assert(b.contains(m));
                let i = choose|i: int| 0 <= i < a.len() && a[i] == m;
                assert(fa[i] == m);
            }
        }
        assert forall|i: int, j: int| 0 <= i < j < fb.len() implies #[trigger] fb[i].0
            != #[trigger] fb[j].0 by {
            let bi = if i < k { i } else { i + 1 };
            let bj = if j < k { j } else { j + 1 };
            assert(fb[i] == b[bi] && fb[j] == b[bj]);
        }
        assert forall|i: int, j: int| 0 <= i < j < fa.len() implies #[trigger] fa[i].0
            != #[trigger] fa[j].0 by {
            assert(fa[i] == a[i] && fa[j] == a[j]);
        }
        lemma_sums_agree(fa, fb);
    }
}

/// Whatever order a tree is walked in, its total is the same: two samples of
/// one tree in one snapshot hold the same processes and report the same
/// memory.
pub proof fn samples_of_one_snapshot_agree(
    snapshot: Seq<ProcessRecord>,
    root: u32,
    one: ProcessTreeSample,
    other: ProcessTreeSample,
)
    requires
        is_running(snapshot, root),
        one.measures(snapshot, root),
        other.measures(snapshot, root),
    ensures
        one.total_bytes == other.total_bytes,
        forall|m: (u32, u64)| one.members@.contains(m) <==> other.members@.contains(m),
{
    lemma_contains_member(snapshot, root, one, other);
    lemma_contains_member(snapshot, root, other, one);
    lemma_sums_agree(one.members@, other.members@);
}

proof fn lemma_contains_member(
    snapshot: Seq<ProcessRecord>,
    root: u32,
    one: ProcessTreeSample,
    other: ProcessTreeSample,
)
    requires
        is_running(snapshot, root),
        one.measures(snapshot, root),
        other.measures(snapshot, root),
    ensures
        forall|m: (u32, u64)| one.members@.contains(m) ==> other.members@.contains(m),
{
    assert forall|m: (u32, u64)| one.members@.contains(m) implies other.members@.contains(m) by {
        let i = choose|i: int| 0 <= i < one.members@.len() && one.members@[i] == m;
        assert(one.members@[i].0 == m.0);
        assert(has_member(one.members@, m.0));
        assert(in_tree(snapshot, root, m.0));
        tree_is_running(snapshot, root, m.0);
        let k = choose|k: int| 0 <= k < snapshot.len() && #[trigger] snapshot[k].pid == m.0;
        assert(has_member(other.members@, m.0));
        let j = choose|j: int| 0 <= j < other.members@.len() && #[trigger] other.members@[j].0 == m.0;
        assert(one.members@[i].0 == snapshot[k].pid && other.members@[j].0 == snapshot[k].pid);
        assert(other.members@[j] == m);
    }
}

} // verus!
