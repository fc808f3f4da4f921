//! Per-model load/unload lifecycle with reference counting.
//!
//! The manager keeps at most one load entry per model name, created lazily
//! on first request. Each entry walks Unloaded -> Loading -> Ready ->
//! Unloading -> Unloaded; a failed load reverts to Unloaded so a later
//! caller gets a fresh attempt. Leases bound backend concurrency: past the
//! ceiling, callers wait in a bounded FIFO queue or are turned away as
//! overloaded.
//!
//! The manager is a decision core: it never performs the load, the unload
//! or the wait itself. Each operation returns an action (start this load,
//! hand the freed slot to that queued caller, run the unload now) and the
//! surrounding runtime carries it out and reports back.

use vstd::prelude::*;

verus! {

/// Lifecycle phase of one model's load entry.
#[derive(Debug, Clone, Copy, PartialEq, Eq, Structural)]
pub enum LoadState {
    Unloaded,
    Loading,
    Ready,
    Unloading,
}

/// What the manager asks of the runtime after an `acquire`.
#[derive(Debug, Clone, Copy, PartialEq, Eq, Structural)]
pub enum AcquireAction {
    /// A lease was granted at once.
    Granted,
    /// The caller is the sole loader: it must run the driver's load and
    /// report the outcome through `load_resolved`.
    StartLoad,
    /// An in-flight load or unload will resolve this caller later.
    Wait,
    /// The concurrency ceiling is reached; the caller waits in the FIFO queue.
    Queued,
    /// Ceiling reached and the queue is full: turned away.
    Overloaded,
}

/// What the manager asks of the runtime after a `release`.
#[derive(Debug, Clone, Copy, PartialEq, Eq, Structural)]
pub enum ReleaseAction {
    /// The freed slot went directly to this queued caller (FIFO front).
    HandedOver(u64),
    /// The last lease went away; the idle-unload timer is armed.
    IdleArmed,
    /// Other leases remain.
    StillHeld,
    /// Nothing to release for this name: releasing twice is a no-op.
    NoOp,
}

/// What `load_resolved` reports back to the runtime.
#[derive(Debug)]
pub enum LoadResolution {
    /// The load succeeded. The waiters split, in arrival order, into those
    /// granted a lease at once, those placed in the FIFO queue, and those
    /// past both bounds, to be answered as overloaded.
    Loaded { granted: Vec<u64>, queued: Vec<u64>, rejected: Vec<u64> },
    /// The load failed: every waiter is to be given this same failure, and
    /// the entry reverts to Unloaded so a later caller retries afresh.
    Failed { notified: Vec<u64> },
    /// No load of that name was in flight.
    NoOp,
}

/// What `unload_done` answers.
#[derive(Debug, Clone, Copy, PartialEq, Eq, Structural)]
pub enum UnloadOutcome {
    /// Requests arrived while the entry was unloading: it is Loading again
    /// and the runtime must start a fresh driver load for them.
    Reload,
    /// The entry is back to Unloaded.
    Done,
    /// No unload of that name was in flight.
    NoOp,
}

/// One model's lifecycle record.
pub struct LoadEntry {
    pub name: String,
    pub state: LoadState,
    pub active_leases: u64,
    /// Callers waiting on the in-flight load of this entry.
    pub waiters: Vec<u64>,
    /// Callers waiting for a free lease slot, FIFO.
    pub queue: Vec<u64>,
    /// Callers that arrived while the entry was unloading.
    pub pending: Vec<u64>,
    /// Whether the idle-unload timer is armed.
    pub idle: bool,
}

/// Mathematical image of a `LoadEntry`.
pub ghost struct EntryModel {
    pub name: Seq<char>,
    pub state: LoadState,
    pub active_leases: nat,
    pub waiters: Seq<u64>,
    pub queue: Seq<u64>,
    pub pending: Seq<u64>,
    pub idle: bool,
}

impl View for LoadEntry {
    type V = EntryModel;

    open spec fn view(&self) -> EntryModel {
        EntryModel {
            name: self.name@,
            state: self.state,
            active_leases: self.active_leases as nat,
            waiters: self.waiters@,
            queue: self.queue@,
            pending: self.pending@,
            idle: self.idle,
        }
    }
}

/// The lifecycle manager: all load entries plus the two policy knobs.
pub struct LifecycleManager {
    pub entries: Vec<LoadEntry>,
    /// Per-backend concurrency ceiling (leases per entry), at least 1.
    pub max_leases: u64,
    /// Capacity of each entry's FIFO wait queue.
    pub max_queue: u64,
}

/// Mathematical image of the manager.
pub ghost struct ManagerModel {
    pub entries: Seq<EntryModel>,
    pub max_leases: nat,
    pub max_queue: nat,
}

impl View for LifecycleManager {
    type V = ManagerModel;

    open spec fn view(&self) -> ManagerModel {
        ManagerModel {
            entries: self.entries@.map_values(|e: LoadEntry| e@),
            max_leases: self.max_leases as nat,
            max_queue: self.max_queue as nat,
        }
    }
}

/// Internal consistency of one entry: leases only while Ready and within
/// the ceiling, waiters only while Loading, queueing only once the ceiling
/// is hit, the idle timer only on a lease-free Ready entry.
pub open spec fn entry_inv(e: EntryModel, max_leases: nat, max_queue: nat) -> bool {
    &&& e.active_leases <= max_leases
    &&& e.queue.len() <= max_queue
    &&& (e.state != LoadState::Ready ==> e.active_leases == 0 && e.queue.len() == 0 && !e.idle)
    &&& (e.state != LoadState::Loading ==> e.waiters.len() == 0)
    &&& (e.state != LoadState::Unloading ==> e.pending.len() == 0)
    &&& (e.queue.len() > 0 ==> e.active_leases == max_leases)
    &&& (e.idle ==> e.active_leases == 0)
}

/// At most one load entry per model name.
pub open spec fn names_unique(es: Seq<EntryModel>) -> bool {
    forall|i: int, j: int| 0 <= i < j < es.len() ==> es[i].name != es[j].name
}

/// Well-formedness of the whole manager.
pub open spec fn mgr_wf(m: ManagerModel) -> bool {
    &&& m.max_leases >= 1
    &&& names_unique(m.entries)
    &&& forall|i: int|
        0 <= i < m.entries.len() ==> entry_inv(#[trigger] m.entries[i], m.max_leases, m.max_queue)
}

/// Index of the entry named `name`, or -1 when none exists.
pub open spec fn find_entry(es: Seq<EntryModel>, name: Seq<char>) -> int
    decreases es.len(),
{
    if es.len() == 0 {
        -1
    } else if es[0].name == name {
        0
    } else {
        let r = find_entry(es.subrange(1, es.len() as int), name);
        if r < 0 {
            -1
        } else {
            r + 1
        }
    }
}

/// Whether some entry carries `name`.
pub open spec fn has_entry(m: ManagerModel, name: Seq<char>) -> bool {
    exists|i: int| 0 <= i < m.entries.len() && m.entries[i].name == name
}

/// The entry carrying `name` (meaningful only when `has_entry` holds).
pub open spec fn entry_of(m: ManagerModel, name: Seq<char>) -> EntryModel {
    m.entries[find_entry(m.entries, name)]
}

/// `find_entry` returns the first index whose entry carries `name`,
/// or -1 exactly when no entry does.
pub proof fn lemma_find_entry(es: Seq<EntryModel>, name: Seq<char>)
    ensures
        find_entry(es, name) == -1 ==> forall|i: int| 0 <= i < es.len() ==> es[i].name != name,
        find_entry(es, name) != -1 ==> {
            let r = find_entry(es, name);
            &&& 0 <= r < es.len()
            &&& es[r].name == name
            &&& forall|i: int| 0 <= i < r ==> es[i].name != name
        },
    decreases es.len(),
{
    if es.len() > 0 && es[0].name != name {
        let sub = es.subrange(1, es.len() as int);
        lemma_find_entry(sub, name);
        let r = find_entry(sub, name);
        if r == -1 {
            assert forall|i: int| 0 <= i < es.len() implies es[i].name != name by {
                if i > 0 {
                    assert(es[i] == sub[i - 1]);
                }
            }
        } else {
            assert(es[r + 1] == sub[r]);
            assert forall|i: int| 0 <= i < r + 1 implies es[i].name != name by {
                if i > 0 {
                    assert(es[i] == sub[i - 1]);
                }
            }
        }
    }
}

/// Index of the first occurrence of `x` in `s`, or -1 when absent.
pub open spec fn find_id(s: Seq<u64>, x: u64) -> int
    decreases s.len(),
{
    if s.len() == 0 {
        -1
    } else if s[0] == x {
        0
    } else {
        let r = find_id(s.subrange(1, s.len() as int), x);
        if r < 0 {
            -1
        } else {
            r + 1
        }
    }
}

/// `find_id` returns the first index holding `x`, or -1 exactly when `x`
/// is absent.
pub proof fn lemma_find_id(s: Seq<u64>, x: u64)
    ensures
        find_id(s, x) == -1 ==> forall|i: int| 0 <= i < s.len() ==> s[i] != x,
        find_id(s, x) != -1 ==> {
            let r = find_id(s, x);
            &&& 0 <= r < s.len()
            &&& s[r] == x
            &&& forall|i: int| 0 <= i < r ==> s[i] != x
        },
    decreases s.len(),
{
    if s.len() > 0 && s[0] != x {
        let sub = s.subrange(1, s.len() as int);
        lemma_find_id(sub, x);
        let r = find_id(sub, x);
        if r == -1 {
            assert forall|i: int| 0 <= i < s.len() implies s[i] != x by {
                if i > 0 {
                    assert(s[i] == sub[i - 1]);
                }
            }
        } else {
            assert(s[r + 1] == sub[r]);
            assert forall|i: int| 0 <= i < r + 1 implies s[i] != x by {
                if i > 0 {
                    assert(s[i] == sub[i - 1]);
                }
            }
        }
    }
}

/// A fresh entry: created in Loading with its one requester as sole waiter.
pub open spec fn fresh_entry(name: Seq<char>, caller: u64) -> EntryModel {
    EntryModel {
        name: name,
        state: LoadState::Loading,
        active_leases: 0,
        waiters: seq![caller],
        queue: seq![],
        pending: seq![],
        idle: false,
    }
}

/// The action `acquire` answers with, as a function of the current state.
pub open spec fn acquire_action(m: ManagerModel, name: Seq<char>, caller: u64) -> AcquireAction {
    let i = find_entry(m.entries, name);
    if i < 0 {
        AcquireAction::StartLoad
    } else {
        let e = m.entries[i];
        match e.state {
            LoadState::Unloaded => AcquireAction::StartLoad,
            LoadState::Loading => AcquireAction::Wait,
            LoadState::Unloading => AcquireAction::Wait,
            LoadState::Ready => if e.active_leases < m.max_leases {
                AcquireAction::Granted
            } else if e.queue.len() < m.max_queue {
                AcquireAction::Queued
            } else {
                AcquireAction::Overloaded
            },
        }
    }
}

/// The manager state after an `acquire`.
pub open spec fn step_acquire(m: ManagerModel, name: Seq<char>, caller: u64) -> ManagerModel {
    let i = find_entry(m.entries, name);
    if i < 0 {
        ManagerModel { entries: m.entries.push(fresh_entry(name, caller)), ..m }
    } else {
        let e = m.entries[i];
        let e2 = match e.state {
            LoadState::Unloaded => EntryModel {
                state: LoadState::Loading,
                waiters: seq![caller],
                ..e
            },
            LoadState::Loading => EntryModel { waiters: e.waiters.push(caller), ..e },
            LoadState::Unloading => EntryModel { pending: e.pending.push(caller), ..e },
            LoadState::Ready => if e.active_leases < m.max_leases {
                EntryModel { active_leases: e.active_leases + 1, idle: false, ..e }
            } else if e.queue.len() < m.max_queue {
                EntryModel { queue: e.queue.push(caller), ..e }
            } else {
                e
            },
        };
        ManagerModel { entries: m.entries.update(i, e2), ..m }
    }
}

/// Acquiring preserves well-formedness.
pub proof fn lemma_acquire_preserves_wf(m: ManagerModel, name: Seq<char>, caller: u64)
    requires
        mgr_wf(m),
    ensures
        mgr_wf(step_acquire(m, name, caller)),
{
    lemma_find_entry(m.entries, name);
}

/// The action `release` answers with.
pub open spec fn release_action(m: ManagerModel, name: Seq<char>) -> ReleaseAction {
    let i = find_entry(m.entries, name);
    if i < 0 {
        ReleaseAction::NoOp
    } else {
        let e = m.entries[i];
        if e.state != LoadState::Ready || e.active_leases == 0 {
            ReleaseAction::NoOp
        } else if e.queue.len() > 0 {
            ReleaseAction::HandedOver(e.queue[0])
        } else if e.active_leases == 1 {
            ReleaseAction::IdleArmed
        } else {
            ReleaseAction::StillHeld
        }
    }
}

/// The manager state after a `release`.
pub open spec fn step_release(m: ManagerModel, name: Seq<char>) -> ManagerModel {
    let i = find_entry(m.entries, name);
    if i < 0 {
        m
    } else {
        let e = m.entries[i];
        if e.state != LoadState::Ready || e.active_leases == 0 {
            m
        } else if e.queue.len() > 0 {
            ManagerModel { entries: m.entries.update(i, EntryModel { queue: e.queue.drop_first(), ..e }), ..m }
        } else {
            ManagerModel {
                entries: m.entries.update(
                    i,
                    EntryModel {
                        active_leases: (e.active_leases - 1) as nat,
                        idle: e.active_leases == 1,
                        ..e
                    },
                ),
                ..m
            }
        }
    }
}

/// How many leases a successful load hands out at once: waiters are served
/// in arrival order up to the ceiling.
pub open spec fn grant_count(m: ManagerModel, e: EntryModel) -> nat {
    if e.waiters.len() <= m.max_leases {
        e.waiters.len()
    } else {
        m.max_leases
    }
}

/// How many of the remaining waiters the bounded queue takes.
pub open spec fn queue_count(m: ManagerModel, e: EntryModel) -> nat {
    if e.waiters.len() - grant_count(m, e) <= m.max_queue {
        (e.waiters.len() - grant_count(m, e)) as nat
    } else {
        m.max_queue
    }
}

/// The manager state after the in-flight load of `name` resolves.
pub open spec fn step_load_resolved(m: ManagerModel, name: Seq<char>, ok: bool) -> ManagerModel {
    let i = find_entry(m.entries, name);
    if i < 0 {
        m
    } else {
        let e = m.entries[i];
        if e.state != LoadState::Loading {
            m
        } else if !ok {
            ManagerModel {
                entries: m.entries.update(
                    i,
                    EntryModel { state: LoadState::Unloaded, waiters: seq![], ..e },
                ),
                ..m
            }
        } else {
            let g = grant_count(m, e);
            let q = queue_count(m, e);
            ManagerModel {
                entries: m.entries.update(
                    i,
                    EntryModel {
                        state: LoadState::Ready,
                        active_leases: g,
                        waiters: seq![],
                        queue: e.waiters.subrange(g as int, (g + q) as int),
                        idle: g == 0,
                        ..e
                    },
                ),
                ..m
            }
        }
    }
}

/// What `load_resolved` must report, given the state it acted on: on
/// failure every waiter is notified of the one shared failure; on success
/// the waiters split, in arrival order, into granted, queued and rejected.
pub open spec fn resolution_ok(m: ManagerModel, name: Seq<char>, ok: bool, r: LoadResolution) -> bool {
    let i = find_entry(m.entries, name);
    if i < 0 || m.entries[i].state != LoadState::Loading {
        r == LoadResolution::NoOp
    } else {
        let e = m.entries[i];
        if !ok {
            match r {
                LoadResolution::Failed { notified } => notified@ == e.waiters,
                _ => false,
            }
        } else {
            let g = grant_count(m, e);
            let q = queue_count(m, e);
            match r {
                LoadResolution::Loaded { granted, queued, rejected } => {
                    &&& granted@ == e.waiters.subrange(0, g as int)
                    &&& queued@ == e.waiters.subrange(g as int, (g + q) as int)
                    &&& rejected@ == e.waiters.subrange((g + q) as int, e.waiters.len() as int)
                },
                _ => false,
            }
        }
    }
}

/// Whether the idle-unload check fires for `name`: only on a Ready entry
/// whose timer is armed and which holds no lease.
pub open spec fn idle_fires(m: ManagerModel, name: Seq<char>) -> bool {
    let i = find_entry(m.entries, name);
    &&& i >= 0
    &&& m.entries[i].state == LoadState::Ready
    &&& m.entries[i].idle
    &&& m.entries[i].active_leases == 0
}

/// The manager state after the idle-unload check of `name`.
pub open spec fn step_idle_fired(m: ManagerModel, name: Seq<char>) -> ManagerModel {
    if idle_fires(m, name) {
        let i = find_entry(m.entries, name);
        let e = m.entries[i];
        ManagerModel {
            entries: m.entries.update(i, EntryModel { state: LoadState::Unloading, idle: false, ..e }),
            ..m
        }
    } else {
        m
    }
}

/// The manager state after the driver's unload of `name` finishes.
pub open spec fn step_unload_done(m: ManagerModel, name: Seq<char>) -> ManagerModel {
    let i = find_entry(m.entries, name);
    if i < 0 || m.entries[i].state != LoadState::Unloading {
        m
    } else {
        let e = m.entries[i];
        if e.pending.len() > 0 {
            ManagerModel {
                entries: m.entries.update(
                    i,
                    EntryModel { state: LoadState::Loading, waiters: e.pending, pending: seq![], ..e },
                ),
                ..m
            }
        } else {
            ManagerModel {
                entries: m.entries.update(i, EntryModel { state: LoadState::Unloaded, ..e }),
                ..m
            }
        }
    }
}

/// The outcome `unload_done` answers with.
pub open spec fn unload_outcome(m: ManagerModel, name: Seq<char>) -> UnloadOutcome {
    let i = find_entry(m.entries, name);
    if i < 0 || m.entries[i].state != LoadState::Unloading {
        UnloadOutcome::NoOp
    } else if m.entries[i].pending.len() > 0 {
        UnloadOutcome::Reload
    } else {
        UnloadOutcome::Done
    }
}

/// The manager state after a queued caller abandons its wait.
pub open spec fn step_cancel_queued(m: ManagerModel, name: Seq<char>, caller: u64) -> ManagerModel {
    let i = find_entry(m.entries, name);
    if i < 0 {
        m
    } else {
        let e = m.entries[i];
        let j = find_id(e.queue, caller);
        if j < 0 {
            m
        } else {
            ManagerModel { entries: m.entries.update(i, EntryModel { queue: e.queue.remove(j), ..e }), ..m }
        }
    }
}

/// The manager state after a load waiter abandons its wait.
pub open spec fn step_cancel_waiter(m: ManagerModel, name: Seq<char>, caller: u64) -> ManagerModel {
    let i = find_entry(m.entries, name);
    if i < 0 {
        m
    } else {
        let e = m.entries[i];
        let j = find_id(e.waiters, caller);
        if j < 0 {
            m
        } else {
            ManagerModel {
                entries: m.entries.update(i, EntryModel { waiters: e.waiters.remove(j), ..e }),
                ..m
            }
        }
    }
}

/// One manager operation, for reasoning about whole histories.
pub ghost enum MgrEvent {
    Acquire { name: Seq<char>, caller: u64 },
    Release { name: Seq<char> },
    LoadResolved { name: Seq<char>, ok: bool },
    IdleFired { name: Seq<char> },
    UnloadDone { name: Seq<char> },
    CancelQueued { name: Seq<char>, caller: u64 },
    CancelWaiter { name: Seq<char>, caller: u64 },
}

/// The state after one manager operation.
pub open spec fn mgr_step(m: ManagerModel, ev: MgrEvent) -> ManagerModel {
    match ev {
        MgrEvent::Acquire { name, caller } => step_acquire(m, name, caller),
        MgrEvent::Release { name } => step_release(m, name),
        MgrEvent::LoadResolved { name, ok } => step_load_resolved(m, name, ok),
        MgrEvent::IdleFired { name } => step_idle_fired(m, name),
        MgrEvent::UnloadDone { name } => step_unload_done(m, name),
        MgrEvent::CancelQueued { name, caller } => step_cancel_queued(m, name, caller),
        MgrEvent::CancelWaiter { name, caller } => step_cancel_waiter(m, name, caller),
    }
}

/// The state after a whole history of operations, oldest first.
pub open spec fn mgr_run(m: ManagerModel, tr: Seq<MgrEvent>) -> ManagerModel
    decreases tr.len(),
{
    if tr.len() == 0 {
        m
    } else {
        mgr_run(mgr_step(m, tr[0]), tr.subrange(1, tr.len() as int))
    }
}

/// Every single operation preserves well-formedness.
pub proof fn lemma_step_preserves_wf(m: ManagerModel, ev: MgrEvent)
    requires
        mgr_wf(m),
    ensures
        mgr_wf(mgr_step(m, ev)),
{
    match ev {
        MgrEvent::Acquire { name, caller } => {
            lemma_acquire_preserves_wf(m, name, caller);
        },
        MgrEvent::Release { name } => {
            lemma_find_entry(m.entries, name);
        },
        MgrEvent::LoadResolved { name, ok } => {
            lemma_find_entry(m.entries, name);
            let i = find_entry(m.entries, name);
            if i >= 0 && m.entries[i].state == LoadState::Loading && ok {
                let e = m.entries[i];
                let g = grant_count(m, e);
                let q = queue_count(m, e);
                let m2 = mgr_step(m, ev);
                assert(entry_inv(e, m.max_leases, m.max_queue));
                assert(e.waiters.subrange(g as int, (g + q) as int).len() == q);
                assert(q > 0 ==> g == m.max_leases);
                assert(entry_inv(m2.entries[i], m.max_leases, m.max_queue));
            }
        },
        MgrEvent::IdleFired { name } => {
            lemma_find_entry(m.entries, name);
        },
        MgrEvent::UnloadDone { name } => {
            lemma_find_entry(m.entries, name);
        },
        MgrEvent::CancelQueued { name, caller } => {
            lemma_find_entry(m.entries, name);
            let i = find_entry(m.entries, name);
            if i >= 0 {
                lemma_find_id(m.entries[i].queue, caller);
            }
        },
        MgrEvent::CancelWaiter { name, caller } => {
            lemma_find_entry(m.entries, name);
            let i = find_entry(m.entries, name);
            if i >= 0 {
                lemma_find_id(m.entries[i].waiters, caller);
            }
        },
    }
}

/// Well-formedness holds along any history.
pub proof fn lemma_run_preserves_wf(m: ManagerModel, tr: Seq<MgrEvent>)
    requires
        mgr_wf(m),
    ensures
        mgr_wf(mgr_run(m, tr)),
    decreases tr.len(),
{
    if tr.len() > 0 {
        lemma_step_preserves_wf(m, tr[0]);
        lemma_run_preserves_wf(mgr_step(m, tr[0]), tr.subrange(1, tr.len() as int));
    }
}

/// Lazy creation: one operation never makes an entry for a name it was not
/// an acquire of.
pub proof fn lemma_step_no_new_entry(m: ManagerModel, ev: MgrEvent, name: Seq<char>)
    requires
        !has_entry(m, name),
        !(ev matches MgrEvent::Acquire { name: n, .. } && n == name),
    ensures
        !has_entry(mgr_step(m, ev), name),
{
    match ev {
        MgrEvent::Acquire { name: n, .. } => lemma_find_entry(m.entries, n),
        MgrEvent::Release { name: n } => lemma_find_entry(m.entries, n),
        MgrEvent::LoadResolved { name: n, .. } => lemma_find_entry(m.entries, n),
        MgrEvent::IdleFired { name: n } => lemma_find_entry(m.entries, n),
        MgrEvent::UnloadDone { name: n } => lemma_find_entry(m.entries, n),
        MgrEvent::CancelQueued { name: n, caller } => {
            lemma_find_entry(m.entries, n);
            let i = find_entry(m.entries, n);
            if i >= 0 {
                lemma_find_id(m.entries[i].queue, caller);
            }
        },
        MgrEvent::CancelWaiter { name: n, caller } => {
            lemma_find_entry(m.entries, n);
            let i = find_entry(m.entries, n);
            if i >= 0 {
                lemma_find_id(m.entries[i].waiters, caller);
            }
        },
    }
    let m2 = mgr_step(m, ev);
    assert forall|j: int| 0 <= j < m2.entries.len() implies m2.entries[j].name != name by {
        if j < m.entries.len() {
            assert(m2.entries[j].name == m.entries[j].name);
        } else {
            match ev {
                MgrEvent::Acquire { name: n, caller } => {
                    assert(m2.entries[j] == fresh_entry(n, caller));
                },
                _ => {
                    assert(m2.entries.len() == m.entries.len());
                },
            }
        }
    }
}

/// Lazy creation over a whole history: a model never named in any acquire
/// never gets a load entry.
pub proof fn lemma_lazy_creation(m: ManagerModel, tr: Seq<MgrEvent>, name: Seq<char>)
    requires
        !has_entry(m, name),
        forall|k: int|
            0 <= k < tr.len() ==> !(#[trigger] tr[k] matches MgrEvent::Acquire { name: n, .. }
                && n == name),
    ensures
        !has_entry(mgr_run(m, tr), name),
    decreases tr.len(),
{
    if tr.len() > 0 {
        lemma_step_no_new_entry(m, tr[0], name);
        lemma_lazy_creation(mgr_step(m, tr[0]), tr.subrange(1, tr.len() as int), name);
    }
}

/// The model name an operation concerns.
pub open spec fn event_name(ev: MgrEvent) -> Seq<char> {
    match ev {
        MgrEvent::Acquire { name, .. } => name,
        MgrEvent::Release { name } => name,
        MgrEvent::LoadResolved { name, .. } => name,
        MgrEvent::IdleFired { name } => name,
        MgrEvent::UnloadDone { name } => name,
        MgrEvent::CancelQueued { name, .. } => name,
        MgrEvent::CancelWaiter { name, .. } => name,
    }
}

/// The caller an operation names, where it names one.
pub open spec fn event_caller(ev: MgrEvent) -> u64 {
    match ev {
        MgrEvent::Acquire { caller, .. } => caller,
        MgrEvent::CancelQueued { caller, .. } => caller,
        MgrEvent::CancelWaiter { caller, .. } => caller,
        _ => 0,
    }
}

/// Where some entry carries `name`, `find_entry` lands on it.
pub proof fn lemma_has_entry_find(m: ManagerModel, name: Seq<char>)
    requires
        has_entry(m, name),
    ensures
        0 <= find_entry(m.entries, name) < m.entries.len(),
        m.entries[find_entry(m.entries, name)].name == name,
{
    lemma_find_entry(m.entries, name);
    if find_entry(m.entries, name) == -1 {
        let w = choose|t: int| 0 <= t < m.entries.len() && m.entries[t].name == name;
        assert(m.entries[w].name != name);
    }
}

/// The first occurrence of `name` keeps its place when entries only change
/// behind their names and anything appended carries another name.
pub proof fn lemma_find_stable(es: Seq<EntryModel>, es2: Seq<EntryModel>, name: Seq<char>)
    requires
        es.len() <= es2.len(),
        forall|t: int| 0 <= t < es.len() ==> es2[t].name == #[trigger] es[t].name,
        forall|t: int| es.len() <= t < es2.len() ==> (#[trigger] es2[t]).name != name,
        0 <= find_entry(es, name) < es.len(),
        es[find_entry(es, name)].name == name,
    ensures
        find_entry(es2, name) == find_entry(es, name),
{
    let i = find_entry(es, name);
    lemma_find_entry(es, name);
    lemma_find_entry(es2, name);
    assert(es2[i].name == name);
    let r = find_entry(es2, name);
    assert(r != -1);
    if r < i {
        assert(es2[r].name == es[r].name);
        assert(es[r].name != name);
        assert(false);
    }
    if r > i {
        assert(es2[i].name != name);
        assert(false);
    }
}

/// An acquire — of this model or any other — leaves an in-flight load of
/// `name` in flight.
pub proof fn lemma_acquire_keeps_loading(m: ManagerModel, name: Seq<char>, n2: Seq<char>, c2: u64)
    requires
        mgr_wf(m),
        has_entry(m, name),
        entry_of(m, name).state == LoadState::Loading,
    ensures
        has_entry(step_acquire(m, n2, c2), name),
        entry_of(step_acquire(m, n2, c2), name).state == LoadState::Loading,
{
    lemma_has_entry_find(m, name);
    lemma_find_entry(m.entries, n2);
    let i = find_entry(m.entries, name);
    let j = find_entry(m.entries, n2);
    let m2 = step_acquire(m, n2, c2);
    if j < 0 {
        assert(n2 != name);
        assert(m2.entries[i] == m.entries[i]);
        lemma_find_stable(m.entries, m2.entries, name);
    } else {
        assert(m2.entries[j].name == m.entries[j].name);
        lemma_find_stable(m.entries, m2.entries, name);
        if n2 == name {
            assert(j == i);
            assert(m2.entries[i].state == LoadState::Loading);
        } else {
            assert(m.entries[j].name == n2);
            assert(j != i);
            assert(m2.entries[i] == m.entries[i]);
        }
    }
    assert(m2.entries[i].name == name);
    assert(has_entry(m2, name));
}

/// While a load of `name` is in flight, any burst of further acquires —
/// for this model or any other — leaves that one load in flight and asks
/// no caller to start a second one: every acquire of `name` in the burst
/// is told to wait for the load already running, whose one resolution all
/// its waiters will share.
pub proof fn lemma_one_load_in_flight(m: ManagerModel, tr: Seq<MgrEvent>, name: Seq<char>)
    requires
        mgr_wf(m),
        has_entry(m, name),
        entry_of(m, name).state == LoadState::Loading,
        forall|k: int| 0 <= k < tr.len() ==> (#[trigger] tr[k]) matches MgrEvent::Acquire { .. },
    ensures
        mgr_wf(mgr_run(m, tr)),
        has_entry(mgr_run(m, tr), name),
        entry_of(mgr_run(m, tr), name).state == LoadState::Loading,
        forall|k: int|
            0 <= k < tr.len() && event_name(#[trigger] tr[k]) == name ==> acquire_action(
                mgr_run(m, tr.take(k)),
                name,
                event_caller(tr[k]),
            ) != AcquireAction::StartLoad,
    decreases tr.len(),
{
    if tr.len() == 0 {
    } else {
        let e = tr[0];
        let rest = tr.subrange(1, tr.len() as int);
        assert(e matches MgrEvent::Acquire { .. });
        let n2 = event_name(e);
        let c2 = event_caller(e);
        lemma_acquire_keeps_loading(m, name, n2, c2);
        lemma_step_preserves_wf(m, e);
        let m1 = mgr_step(m, e);
        assert(m1 == step_acquire(m, n2, c2));
        assert forall|k: int| 0 <= k < rest.len() implies (#[trigger] rest[k]) matches
            MgrEvent::Acquire { .. } by {
            assert(rest[k] == tr[k + 1]);
        }
        lemma_one_load_in_flight(m1, rest, name);
        assert(mgr_run(m, tr) == mgr_run(m1, rest));
        assert forall|k: int|
            0 <= k < tr.len() && event_name(#[trigger] tr[k]) == name implies acquire_action(
            mgr_run(m, tr.take(k)),
            name,
            event_caller(tr[k]),
        ) != AcquireAction::StartLoad by {
            if k == 0 {
                assert(tr.take(0) =~= Seq::<MgrEvent>::empty());
                assert(mgr_run(m, tr.take(0)) == m);
                lemma_single_loader(m, name, event_caller(tr[0]));
            } else {
                assert(rest[k - 1] == tr[k]);
                let p = tr.take(k);
                assert(p[0] == e);
                assert(p.subrange(1, p.len() as int) =~= rest.take(k - 1));
                assert(mgr_run(m, p) == mgr_run(m1, rest.take(k - 1)));
            }
        }
    }
}

/// Load coalescing: while a load of `name` is in flight, a further acquire
/// never starts a second driver load; the caller only joins the waiters of
/// the one in-flight load, whose resolution it will share.
pub proof fn lemma_single_loader(m: ManagerModel, name: Seq<char>, caller: u64)
    requires
        mgr_wf(m),
        has_entry(m, name),
        entry_of(m, name).state == LoadState::Loading,
    ensures
        acquire_action(m, name, caller) == AcquireAction::Wait,
        entry_of(step_acquire(m, name, caller), name).waiters == entry_of(
            m,
            name,
        ).waiters.push(caller),
{
    lemma_find_entry(m.entries, name);
    let i = find_entry(m.entries, name);
    if i == -1 {
        let w = choose|t: int| 0 <= t < m.entries.len() && m.entries[t].name == name;
        assert(m.entries[w].name != name);
    }
    let m2 = step_acquire(m, name, caller);
    lemma_find_entry(m2.entries, name);
    assert(find_entry(m2.entries, name) == i) by {
        let r2 = find_entry(m2.entries, name);
        assert(m2.entries[i].name == name);
        if r2 < i {
            assert(m2.entries[r2].name == m.entries[r2].name);
        }
        if r2 > i {
            assert(m2.entries[i].name != name);
        }
    }
}

/// A driver load is started only by the first requester: exactly when no
/// entry exists yet or the entry has fully unloaded.
pub proof fn lemma_start_load_iff(m: ManagerModel, name: Seq<char>, caller: u64)
    requires
        mgr_wf(m),
    ensures
        acquire_action(m, name, caller) == AcquireAction::StartLoad <==> (!has_entry(m, name)
            || entry_of(m, name).state == LoadState::Unloaded),
{
    lemma_find_entry(m.entries, name);
    let i = find_entry(m.entries, name);
    if i == -1 && has_entry(m, name) {
        let w = choose|t: int| 0 <= t < m.entries.len() && m.entries[t].name == name;
        assert(m.entries[w].name != name);
    }
}

/// Total number of leases held across all entries.
pub open spec fn total_active(es: Seq<EntryModel>) -> nat
    decreases es.len(),
{
    if es.len() == 0 {
        0
    } else {
        es[0].active_leases + total_active(es.subrange(1, es.len() as int))
    }
}

/// Replacing one entry changes the total by that entry's difference.
pub proof fn lemma_total_active_update(es: Seq<EntryModel>, i: int, e2: EntryModel)
    requires
        0 <= i < es.len(),
    ensures
        total_active(es.update(i, e2)) + es[i].active_leases == total_active(es)
            + e2.active_leases,
    decreases es.len(),
{
    let es2 = es.update(i, e2);
    if i == 0 {
        assert(es2.subrange(1, es2.len() as int) =~= es.subrange(1, es.len() as int));
    } else {
        assert(es2.subrange(1, es2.len() as int) =~= es.subrange(1, es.len() as int).update(
            i - 1,
            e2,
        ));
        lemma_total_active_update(es.subrange(1, es.len() as int), i - 1, e2);
    }
}

/// Appending an entry adds its leases to the total.
pub proof fn lemma_total_active_push(es: Seq<EntryModel>, e2: EntryModel)
    ensures
        total_active(es.push(e2)) == total_active(es) + e2.active_leases,
    decreases es.len(),
{
    let es2 = es.push(e2);
    assert(total_active(es2) == es2[0].active_leases + total_active(
        es2.subrange(1, es2.len() as int),
    ));
    if es.len() == 0 {
        assert(es2.subrange(1, es2.len() as int) =~= Seq::<EntryModel>::empty());
        assert(total_active(Seq::<EntryModel>::empty()) == 0);
        assert(es2[0] == e2);
    } else {
        assert(es2.subrange(1, es2.len() as int) =~= es.subrange(1, es.len() as int).push(e2));
        lemma_total_active_push(es.subrange(1, es.len() as int), e2);
        assert(es2[0] == es[0]);
    }
}

/// How many leases one operation hands out.
pub open spec fn step_grants(m: ManagerModel, ev: MgrEvent) -> nat {
    match ev {
        MgrEvent::Acquire { name, caller } => if acquire_action(m, name, caller)
            == AcquireAction::Granted {
            1
        } else {
            0
        },
        MgrEvent::Release { name } => if release_action(m, name) matches ReleaseAction::HandedOver(
            _,
        ) {
            1
        } else {
            0
        },
        MgrEvent::LoadResolved { name, ok } => {
            let i = find_entry(m.entries, name);
            if ok && i >= 0 && m.entries[i].state == LoadState::Loading {
                grant_count(m, m.entries[i])
            } else {
                0
            }
        },
        _ => 0,
    }
}

/// How many leases one operation takes back.
pub open spec fn step_releases(m: ManagerModel, ev: MgrEvent) -> nat {
    match ev {
        MgrEvent::Release { name } => if release_action(m, name) == ReleaseAction::NoOp {
            0
        } else {
            1
        },
        _ => 0,
    }
}

/// One operation changes the held-lease total by exactly its grants minus
/// its releases.
pub proof fn lemma_lease_conservation_step(m: ManagerModel, ev: MgrEvent)
    requires
        mgr_wf(m),
    ensures
        total_active(mgr_step(m, ev).entries) + step_releases(m, ev) == total_active(m.entries)
            + step_grants(m, ev),
{
    let m2 = mgr_step(m, ev);
    match ev {
        MgrEvent::Acquire { name, caller } => {
            lemma_find_entry(m.entries, name);
            let i = find_entry(m.entries, name);
            if i < 0 {
                lemma_total_active_push(m.entries, fresh_entry(name, caller));
            } else {
                assert(m2.entries == m.entries.update(i, m2.entries[i]));
                lemma_total_active_update(m.entries, i, m2.entries[i]);
            }
        },
        MgrEvent::Release { name } => {
            lemma_find_entry(m.entries, name);
            let i = find_entry(m.entries, name);
            if i >= 0 && m2.entries != m.entries {
                assert(m2.entries == m.entries.update(i, m2.entries[i]));
                lemma_total_active_update(m.entries, i, m2.entries[i]);
            }
        },
        MgrEvent::LoadResolved { name, ok } => {
            lemma_find_entry(m.entries, name);
            let i = find_entry(m.entries, name);
            if i >= 0 && m.entries[i].state == LoadState::Loading {
                assert(m.entries[i].active_leases == 0) by {
                    assert(entry_inv(m.entries[i], m.max_leases, m.max_queue));
                }
                assert(m2.entries == m.entries.update(i, m2.entries[i]));
                lemma_total_active_update(m.entries, i, m2.entries[i]);
            }
        },
        MgrEvent::IdleFired { name } => {
            lemma_find_entry(m.entries, name);
            let i = find_entry(m.entries, name);
            if idle_fires(m, name) {
                assert(m2.entries == m.entries.update(i, m2.entries[i]));
                lemma_total_active_update(m.entries, i, m2.entries[i]);
            }
        },
        MgrEvent::UnloadDone { name } => {
            lemma_find_entry(m.entries, name);
            let i = find_entry(m.entries, name);
            if i >= 0 && m.entries[i].state == LoadState::Unloading {
                assert(m2.entries == m.entries.update(i, m2.entries[i]));
                lemma_total_active_update(m.entries, i, m2.entries[i]);
            }
        },
        MgrEvent::CancelQueued { name, caller } => {
            lemma_find_entry(m.entries, name);
            let i = find_entry(m.entries, name);
            if i >= 0 && find_id(m.entries[i].queue, caller) >= 0 {
                assert(m2.entries == m.entries.update(i, m2.entries[i]));
                lemma_total_active_update(m.entries, i, m2.entries[i]);
            }
        },
        MgrEvent::CancelWaiter { name, caller } => {
            lemma_find_entry(m.entries, name);
            let i = find_entry(m.entries, name);
            if i >= 0 && find_id(m.entries[i].waiters, caller) >= 0 {
                assert(m2.entries == m.entries.update(i, m2.entries[i]));
                lemma_total_active_update(m.entries, i, m2.entries[i]);
            }
        },
    }
}

/// Leases a whole history hands out.
pub open spec fn trace_grants(m: ManagerModel, tr: Seq<MgrEvent>) -> nat
    decreases tr.len(),
{
    if tr.len() == 0 {
        0
    } else {
        step_grants(m, tr[0]) + trace_grants(mgr_step(m, tr[0]), tr.subrange(1, tr.len() as int))
    }
}

/// Leases a whole history takes back.
pub open spec fn trace_releases(m: ManagerModel, tr: Seq<MgrEvent>) -> nat
    decreases tr.len(),
{
    if tr.len() == 0 {
        0
    } else {
        step_releases(m, tr[0]) + trace_releases(
            mgr_step(m, tr[0]),
            tr.subrange(1, tr.len() as int),
        )
    }
}

/// Lease accounting never drifts: over any history, however its acquires
/// and releases interleave or fail, the held-lease total moves by exactly
/// the grants minus the releases — and, being a count, never drops below
/// zero.
pub proof fn lemma_lease_conservation(m: ManagerModel, tr: Seq<MgrEvent>)
    requires
        mgr_wf(m),
    ensures
        total_active(mgr_run(m, tr).entries) + trace_releases(m, tr) == total_active(m.entries)
            + trace_grants(m, tr),
    decreases tr.len(),
{
    if tr.len() > 0 {
        lemma_lease_conservation_step(m, tr[0]);
        lemma_step_preserves_wf(m, tr[0]);
        lemma_lease_conservation(mgr_step(m, tr[0]), tr.subrange(1, tr.len() as int));
    }
}

/// Unload happens only lease-free: the idle check fires only with a zero
/// lease count, and an Unloading entry holds no lease.
pub proof fn lemma_unload_only_idle(m: ManagerModel, name: Seq<char>)
    requires
        mgr_wf(m),
    ensures
        idle_fires(m, name) ==> entry_of(m, name).active_leases == 0,
        has_entry(m, name) && entry_of(m, name).state == LoadState::Unloading ==> entry_of(
            m,
            name,
        ).active_leases == 0,
{
    lemma_find_entry(m.entries, name);
    let i = find_entry(m.entries, name);
    if 0 <= i < m.entries.len() {
        assert(entry_inv(m.entries[i], m.max_leases, m.max_queue));
    }
    if i == -1 && has_entry(m, name) {
        let w = choose|t: int| 0 <= t < m.entries.len() && m.entries[t].name == name;
        assert(m.entries[w].name != name);
    }
}

impl LifecycleManager {
    /// A manager with no entries yet.
    pub fn new(max_leases: u64, max_queue: u64) -> (m: LifecycleManager)
        requires
            max_leases >= 1,
        ensures
            m@.entries.len() == 0,
            m@.max_leases == max_leases as nat,
            m@.max_queue == max_queue as nat,
            mgr_wf(m@),
    {
        let m = LifecycleManager { entries: Vec::new(), max_leases, max_queue };
        proof {
            assert(m@.entries =~= Seq::<EntryModel>::empty());
        }
        m
    }

    /// Index of the entry named `name`, if any.
    fn find(&self, name: &String) -> (r: Option<usize>)
        ensures
            match r {
                Some(i) => i < self.entries@.len() && find_entry(self@.entries, name@) == i as int,
                None => find_entry(self@.entries, name@) == -1,
            },
    {
        proof {
            lemma_find_entry(self@.entries, name@);
        }
        let n = self.entries.len();
        let mut i: usize = 0;
        while i < n
            invariant
                n == self.entries@.len(),
                0 <= i <= n,
                forall|j: int| 0 <= j < i ==> self@.entries[j].name != name@,
            decreases n - i,
        {
            if self.entries[i].name == *name {
                proof {
                    lemma_find_entry(self@.entries, name@);
                    assert(self@.entries[i as int] == self.entries@[i as int]@);
                    assert(self@.entries[i as int].name == name@);
                    let r = find_entry(self@.entries, name@);
                    assert(r != -1);
                    if r < i as int {
                        assert(self@.entries[r].name == name@);
                        assert(false);
                    }
                    if r > i as int {
                        assert(self@.entries[i as int].name != name@);
                        assert(false);
                    }
                }
                return Some(i);
            }
            i += 1;
        }
        None
    }

    /// Claim a lease on `name`, creating the entry lazily on first request.
    ///
    /// The returned action tells the runtime what to do next; the state
    /// change is exactly `step_acquire` on the manager's model.
    pub fn acquire(&mut self, name: &String, caller: u64) -> (a: AcquireAction)
        requires
            mgr_wf(old(self)@),
        ensures
            final(self)@ == step_acquire(old(self)@, name@, caller),
            a == acquire_action(old(self)@, name@, caller),
            mgr_wf(final(self)@),
    {
        proof {
            lemma_find_entry(old(self)@.entries, name@);
            lemma_acquire_preserves_wf(old(self)@, name@, caller);
        }
        let found = self.find(name);
        match found {
            None => {
                let mut waiters: Vec<u64> = Vec::new();
                waiters.push(caller);
                let e = LoadEntry {
                    name: name.clone(),
                    state: LoadState::Loading,
                    active_leases: 0,
                    waiters,
                    queue: Vec::new(),
                    pending: Vec::new(),
                    idle: false,
                };
                self.entries.push(e);
                proof {
                    assert(self@.entries =~~= step_acquire(old(self)@, name@, caller).entries);
                }
                AcquireAction::StartLoad
            },
            Some(i) => {
                let mut e = self.entries.remove(i);
                let a: AcquireAction;
                match e.state {
                    LoadState::Unloaded => {
                        e.state = LoadState::Loading;
                        let mut waiters: Vec<u64> = Vec::new();
                        waiters.push(caller);
                        e.waiters = waiters;
                        a = AcquireAction::StartLoad;
                    },
                    LoadState::Loading => {
                        e.waiters.push(caller);
                        a = AcquireAction::Wait;
                    },
                    LoadState::Unloading => {
                        e.pending.push(caller);
                        a = AcquireAction::Wait;
                    },
                    LoadState::Ready => {
                        if e.active_leases < self.max_leases {
                            e.active_leases = e.active_leases + 1;
                            e.idle = false;
                            a = AcquireAction::Granted;
                        } else if (e.queue.len() as u64) < self.max_queue {
                            e.queue.push(caller);
                            a = AcquireAction::Queued;
                        } else {
                            a = AcquireAction::Overloaded;
                        }
                    },
                }
                self.entries.insert(i, e);
                proof {
                    assert(self@.entries =~~= step_acquire(old(self)@, name@, caller).entries);
                }
                a
            },
        }
    }

    /// Give a lease back. If a caller waits in the FIFO queue, the slot
    /// passes straight to the queue's front; otherwise the count drops, and
    /// the idle-unload timer is armed when it reaches zero. Releasing with
    /// nothing held is a harmless no-op.
    pub fn release(&mut self, name: &String) -> (a: ReleaseAction)
        requires
            mgr_wf(old(self)@),
        ensures
            final(self)@ == step_release(old(self)@, name@),
            a == release_action(old(self)@, name@),
            mgr_wf(final(self)@),
    {
        proof {
            lemma_find_entry(old(self)@.entries, name@);
        }
        let found = self.find(name);
        match found {
            None => ReleaseAction::NoOp,
            Some(i) => {
                let mut e = self.entries.remove(i);
                let a: ReleaseAction;
                if !matches!(e.state, LoadState::Ready) || e.active_leases == 0 {
                    a = ReleaseAction::NoOp;
                } else if e.queue.len() > 0 {
                    let next = e.queue.remove(0);
                    a = ReleaseAction::HandedOver(next);
                } else {
                    e.active_leases = e.active_leases - 1;
                    if e.active_leases == 0 {
                        e.idle = true;
                        a = ReleaseAction::IdleArmed;
                    } else {
                        a = ReleaseAction::StillHeld;
                    }
                }
                self.entries.insert(i, e);
                proof {
                    assert(self@.entries =~~= step_release(old(self)@, name@).entries);
                }
                a
            },
        }
    }

    /// Report the outcome of the in-flight load of `name`. All waiters
    /// resolve together: on failure each is notified of the same error and
    /// the entry reverts to Unloaded; on success they are served in arrival
    /// order up to the ceiling, queued up to the queue bound, and the rest
    /// turned away.
    pub fn load_resolved(&mut self, name: &String, ok: bool) -> (r: LoadResolution)
        requires
            mgr_wf(old(self)@),
        ensures
            final(self)@ == step_load_resolved(old(self)@, name@, ok),
            resolution_ok(old(self)@, name@, ok, r),
            mgr_wf(final(self)@),
    {
        proof {
            lemma_find_entry(old(self)@.entries, name@);
        }
        let found = self.find(name);
        match found {
            None => LoadResolution::NoOp,
            Some(i) => {
                let mut e = self.entries.remove(i);
                if !matches!(e.state, LoadState::Loading) {
                    self.entries.insert(i, e);
                    proof {
                        assert(self@.entries =~~= old(self)@.entries);
                    }
                    return LoadResolution::NoOp;
                }
                if !ok {
                    let notified = e.waiters;
                    e.waiters = Vec::new();
                    e.state = LoadState::Unloaded;
                    self.entries.insert(i, e);
                    proof {
                        assert(self@.entries =~~= step_load_resolved(old(self)@, name@, ok).entries);
                    }
                    return LoadResolution::Failed { notified };
                }
                let total = e.waiters.len();
                let g: usize = if (total as u64) <= self.max_leases {
                    total
                } else {
                    proof {
                        assert(self.max_leases < total as u64);
                    }
                    self.max_leases as usize
                };
                let rem = total - g;
                let q: usize = if (rem as u64) <= self.max_queue {
                    rem
                } else {
                    proof {
                        assert(self.max_queue < rem as u64);
                    }
                    self.max_queue as usize
                };
                let mut granted: Vec<u64> = Vec::new();
                let mut queued: Vec<u64> = Vec::new();
                let mut queue_store: Vec<u64> = Vec::new();
                let mut rejected: Vec<u64> = Vec::new();
                let mut k: usize = 0;
                while k < g
                    invariant
                        k <= g <= total,
                        total == e.waiters@.len(),
                        granted@ == e.waiters@.subrange(0, k as int),
                    decreases g - k,
                {
                    granted.push(e.waiters[k]);
                    proof {
                        assert(granted@ =~= e.waiters@.subrange(0, k + 1 as int));
                    }
                    k += 1;
                }
                while k < g + q
                    invariant
                        g <= k <= g + q,
                        g + q <= total,
                        total == e.waiters@.len(),
                        queued@ == e.waiters@.subrange(g as int, k as int),
                        queue_store@ == queued@,
                    decreases g + q - k,
                {
                    queued.push(e.waiters[k]);
                    queue_store.push(e.waiters[k]);
                    proof {
                        assert(queued@ =~= e.waiters@.subrange(g as int, k + 1 as int));
                    }
                    k += 1;
                }
                while k < total
                    invariant
                        g + q <= k <= total,
                        total == e.waiters@.len(),
                        rejected@ == e.waiters@.subrange((g + q) as int, k as int),
                    decreases total - k,
                {
                    rejected.push(e.waiters[k]);
                    proof {
                        assert(rejected@ =~= e.waiters@.subrange((g + q) as int, k + 1 as int));
                    }
                    k += 1;
                }
                e.state = LoadState::Ready;
                e.active_leases = g as u64;
                e.waiters = Vec::new();
                e.queue = queue_store;
                e.idle = g == 0;
                self.entries.insert(i, e);
                proof {
                    assert(self@.entries =~~= step_load_resolved(old(self)@, name@, ok).entries);
                }
                LoadResolution::Loaded { granted, queued, rejected }
            },
        }
    }

    /// The idle timer of `name` elapsed: decide whether to unload now. The
    /// answer is true only when the entry is Ready, its timer is still
    /// armed, and no lease is held; the runtime must then run the driver's
    /// unload and report back through `unload_done`. A fresh acquire in the
    /// idle window disarmed the timer, so the check answers false.
    pub fn idle_fired(&mut self, name: &String) -> (unload: bool)
        requires
            mgr_wf(old(self)@),
        ensures
            final(self)@ == step_idle_fired(old(self)@, name@),
            unload == idle_fires(old(self)@, name@),
            unload ==> entry_of(old(self)@, name@).active_leases == 0,
            mgr_wf(final(self)@),
    {
        proof {
            lemma_find_entry(old(self)@.entries, name@);
        }
        let found = self.find(name);
        match found {
            None => false,
            Some(i) => {
                let mut e = self.entries.remove(i);
                let fires = matches!(e.state, LoadState::Ready) && e.idle && e.active_leases == 0;
                if fires {
                    e.state = LoadState::Unloading;
                    e.idle = false;
                }
                self.entries.insert(i, e);
                proof {
                    assert(self@.entries =~~= step_idle_fired(old(self)@, name@).entries);
                }
                fires
            },
        }
    }

    /// The driver's unload of `name` finished (or was forced after a
    /// failure). Callers that arrived meanwhile start a fresh load at once;
    /// otherwise the entry is Unloaded again.
    pub fn unload_done(&mut self, name: &String) -> (r: UnloadOutcome)
        requires
            mgr_wf(old(self)@),
        ensures
            final(self)@ == step_unload_done(old(self)@, name@),
            r == unload_outcome(old(self)@, name@),
            mgr_wf(final(self)@),
    {
        proof {
            lemma_find_entry(old(self)@.entries, name@);
        }
        let found = self.find(name);
        match found {
            None => UnloadOutcome::NoOp,
            Some(i) => {
                let e = self.entries.remove(i);
                let r: UnloadOutcome;
                let e2: LoadEntry;
                if !matches!(e.state, LoadState::Unloading) {
                    r = UnloadOutcome::NoOp;
                    e2 = e;
                } else if e.pending.len() > 0 {
                    e2 = LoadEntry {
                        name: e.name,
                        state: LoadState::Loading,
                        active_leases: e.active_leases,
                        waiters: e.pending,
                        queue: e.queue,
                        pending: Vec::new(),
                        idle: e.idle,
                    };
                    r = UnloadOutcome::Reload;
                } else {
                    e2 = LoadEntry {
                        name: e.name,
                        state: LoadState::Unloaded,
                        active_leases: e.active_leases,
                        waiters: e.waiters,
                        queue: e.queue,
                        pending: e.pending,
                        idle: e.idle,
                    };
                    r = UnloadOutcome::Done;
                }
                self.entries.insert(i, e2);
                proof {
                    assert(self@.entries =~~= step_unload_done(old(self)@, name@).entries);
                }
                r
            },
        }
    }

    /// Position of the first occurrence of `x` in `s`, if any.
    fn index_of(s: &Vec<u64>, x: u64) -> (r: Option<usize>)
        ensures
            match r {
                Some(j) => j < s@.len() && j as int == find_id(s@, x) && s@[j as int] == x,
                None => find_id(s@, x) == -1 && !s@.contains(x),
            },
    {
        let n = s.len();
        let mut j: usize = 0;
        while j < n
            invariant
                j <= n,
                n == s@.len(),
                forall|t: int| 0 <= t < j ==> s@[t] != x,
            decreases n - j,
        {
            if s[j] == x {
                proof {
                    lemma_find_id(s@, x);
                    let f = find_id(s@, x);
                    assert(s@[j as int] == x);
                    assert(f != -1);
                    if f < j as int {
                        assert(s@[f] == x);
                        assert(false);
                    }
                    if f > j as int {
                        assert(s@[j as int] != x);
                        assert(false);
                    }
                }
                return Some(j);
            }
            j += 1;
        }
        proof {
            lemma_find_id(s@, x);
            if find_id(s@, x) != -1 {
                assert(s@[find_id(s@, x)] == x);
                assert(false);
            }
            assert(!s@.contains(x)) by {
                if s@.contains(x) {
                    let w = choose|t: int| 0 <= t < s@.len() && s@[t] == x;
                    assert(s@[w] != x);
                }
            }
        }
        None
    }

    /// A queued caller gives up its place (timeout or disconnect). Answers
    /// whether the caller was found and removed.
    pub fn cancel_queued(&mut self, name: &String, caller: u64) -> (r: bool)
        requires
            mgr_wf(old(self)@),
        ensures
            final(self)@ == step_cancel_queued(old(self)@, name@, caller),
            r == (has_entry(old(self)@, name@) && entry_of(old(self)@, name@).queue.contains(caller)),
            mgr_wf(final(self)@),
    {
        proof {
            lemma_find_entry(old(self)@.entries, name@);
        }
        let found = self.find(name);
        match found {
            None => {
                proof {
                    assert(!has_entry(old(self)@, name@));
                }
                false
            },
            Some(i) => {
                let mut e = self.entries.remove(i);
                let hit = Self::index_of(&e.queue, caller);
                let r: bool;
                match hit {
                    Some(j) => {
                        e.queue.remove(j);
                        r = true;
                    },
                    None => {
                        r = false;
                    },
                }
                self.entries.insert(i, e);
                proof {
                    assert(self@.entries =~~= step_cancel_queued(old(self)@, name@, caller).entries);
                }
                r
            },
        }
    }

    /// A load waiter gives up (timeout or disconnect) before the load
    /// resolves. Answers whether the caller was found and removed.
    pub fn cancel_waiter(&mut self, name: &String, caller: u64) -> (r: bool)
        requires
            mgr_wf(old(self)@),
        ensures
            final(self)@ == step_cancel_waiter(old(self)@, name@, caller),
            r == (has_entry(old(self)@, name@) && entry_of(old(self)@, name@).waiters.contains(caller)),
            mgr_wf(final(self)@),
    {
        proof {
            lemma_find_entry(old(self)@.entries, name@);
        }
        let found = self.find(name);
        match found {
            None => {
                proof {
                    assert(!has_entry(old(self)@, name@));
                }
                false
            },
            Some(i) => {
                let mut e = self.entries.remove(i);
                let hit = Self::index_of(&e.waiters, caller);
                let r: bool;
                match hit {
                    Some(j) => {
                        e.waiters.remove(j);
                        r = true;
                    },
                    None => {
                        r = false;
                    },
                }
                self.entries.insert(i, e);
                proof {
                    assert(self@.entries =~~= step_cancel_waiter(old(self)@, name@, caller).entries);
                }
                r
            },
        }
    }

    /// How many load entries exist (for observability and tests).
    pub fn entry_count(&self) -> (n: usize)
        ensures
            n == self@.entries.len(),
    {
        self.entries.len()
    }

    /// Whether a load entry for `name` exists at all.
    pub fn has_load_entry(&self, name: &String) -> (b: bool)
        ensures
            b == has_entry(self@, name@),
    {
        proof {
            lemma_find_entry(self@.entries, name@);
        }
        let found = self.find(name);
        match found {
            Some(i) => {
                proof {
                    assert(self@.entries[i as int].name == name@);
                }
                true
            },
            None => false,
        }
    }

    /// The number of leases held on `name`; zero when no entry exists.
    pub fn lease_count(&self, name: &String) -> (n: u64)
        ensures
            has_entry(self@, name@) ==> n as nat == entry_of(self@, name@).active_leases,
            !has_entry(self@, name@) ==> n == 0,
    {
        proof {
            lemma_find_entry(self@.entries, name@);
        }
        let found = self.find(name);
        match found {
            Some(i) => {
                proof {
                    assert(self@.entries[i as int].name == name@);
                }
                self.entries[i].active_leases
            },
            None => 0,
        }
    }

    /// The lifecycle state of `name`'s entry, if one exists.
    pub fn state_of(&self, name: &String) -> (s: Option<LoadState>)
        ensures
            match s {
                Some(st) => has_entry(self@, name@) && st == entry_of(self@, name@).state,
                None => !has_entry(self@, name@),
            },
    {
        proof {
            lemma_find_entry(self@.entries, name@);
        }
        let found = self.find(name);
        match found {
            Some(i) => {
                proof {
                    assert(self@.entries[i as int].name == name@);
                }
                Some(self.entries[i].state)
            },
            None => None,
        }
    }
}

} // verus!
