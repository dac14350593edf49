//! Workers: units of execution capacity with an idle / busy / dead status,
//! and the pool that hands them out and takes them back.

use vstd::prelude::*;
use crate::id::{WorkerId, is_fresh_id_bytes};

verus! {

/// Worker status constants.
pub const WORKER_IDLE: u8 = 0;

pub const WORKER_BUSY: u8 = 1;

pub const WORKER_DEAD: u8 = 2;

/// Handle to a worker process (or in-process task runner).
pub struct WorkerHandle {
    /// Unique worker identifier.
    pub worker_id: WorkerId,
    /// Process ID of the process the worker runs in.
    pub pid: u32,
    /// Current status: IDLE, BUSY, or DEAD.
    pub status: u8,
}

impl Clone for WorkerHandle {
    fn clone(&self) -> (h: Self)
        ensures
            h == *self,
    {
        WorkerHandle { worker_id: self.worker_id.clone(), pid: self.pid, status: self.status }
    }
}

impl WorkerHandle {
    /// A new idle worker with a fresh id, running in the process `pid`.
    pub fn new_in_process(pid: u32) -> (h: Self)
        ensures
            h.status == WORKER_IDLE,
            h.pid == pid,
            is_fresh_id_bytes(h.worker_id@),
    {
        WorkerHandle { worker_id: WorkerId::new(), pid, status: WORKER_IDLE }
    }

    /// Check if the worker is idle (available for work).
    pub fn is_idle(&self) -> (b: bool)
        ensures
            b == (self.status == WORKER_IDLE),
    {
        self.status == WORKER_IDLE
    }

    /// Check if the worker is busy (currently executing).
    pub fn is_busy(&self) -> (b: bool)
        ensures
            b == (self.status == WORKER_BUSY),
    {
        self.status == WORKER_BUSY
    }

    /// Check if the worker is dead (process exited).
    pub fn is_dead(&self) -> (b: bool)
        ensures
            b == (self.status == WORKER_DEAD),
    {
        self.status == WORKER_DEAD
    }

    /// Mark the worker as busy.
    pub fn mark_busy(&mut self)
        ensures
            *final(self) == (WorkerHandle { status: WORKER_BUSY, ..*old(self) }),
    {
        self.status = WORKER_BUSY;
    }

    /// Mark the worker as idle.
    pub fn mark_idle(&mut self)
        ensures
            *final(self) == (WorkerHandle { status: WORKER_IDLE, ..*old(self) }),
    {
        self.status = WORKER_IDLE;
    }

    /// Mark the worker as dead.
    pub fn mark_dead(&mut self)
        ensures
            *final(self) == (WorkerHandle { status: WORKER_DEAD, ..*old(self) }),
    {
        self.status = WORKER_DEAD;
    }
}

/// `h` with status `st`.
pub open spec fn with_status(h: WorkerHandle, st: u8) -> WorkerHandle {
    WorkerHandle { status: st, ..h }
}

/// Position of the first idle worker of `s`, if any.
pub open spec fn first_idle(s: Seq<WorkerHandle>) -> Option<int> {
    if exists|i: int| 0 <= i < s.len() && s[i].status == WORKER_IDLE {
        Some(
            choose|i: int|
                0 <= i < s.len() && s[i].status == WORKER_IDLE && forall|j: int|
                    0 <= j < i ==> s[j].status != WORKER_IDLE,
        )
    } else {
        None
    }
}

/// Position of the first worker of `s` with this id, if any.
pub open spec fn first_with_id(s: Seq<WorkerHandle>, id: Seq<u8>) -> Option<int> {
    if exists|i: int| 0 <= i < s.len() && s[i].worker_id@ == id {
        Some(
            choose|i: int|
                0 <= i < s.len() && s[i].worker_id@ == id && forall|j: int|
                    0 <= j < i ==> s[j].worker_id@ != id,
        )
    } else {
        None
    }
}

/// The workers of `s` that are not dead, in order.
pub open spec fn live_workers(s: Seq<WorkerHandle>) -> Seq<WorkerHandle> {
    s.filter(|w: WorkerHandle| w.status != WORKER_DEAD)
}

/// Number of workers of `s` with status `st`.
pub open spec fn count_status(s: Seq<WorkerHandle>, st: u8) -> nat {
    s.filter(|w: WorkerHandle| w.status == st).len()
}

/// The first index satisfying the search is the chosen one.
proof fn lemma_first_idle_is(s: Seq<WorkerHandle>, i: int)
    requires
        0 <= i < s.len(),
        s[i].status == WORKER_IDLE,
        forall|j: int| 0 <= j < i ==> s[j].status != WORKER_IDLE,
    ensures
        first_idle(s) == Some(i),
{
    let c = choose|c: int|
        0 <= c < s.len() && s[c].status == WORKER_IDLE && forall|j: int| 0 <= j < c ==> s[j].status != WORKER_IDLE;
    assert(0 <= c < s.len() && s[c].status == WORKER_IDLE && forall|j: int| 0 <= j < c ==> s[j].status != WORKER_IDLE);
    if c < i {
        assert(s[c].status != WORKER_IDLE);
    }
    if i < c {
        assert(s[i].status != WORKER_IDLE);
    }
}

proof fn lemma_first_with_id_is(s: Seq<WorkerHandle>, id: Seq<u8>, i: int)
    requires
        0 <= i < s.len(),
        s[i].worker_id@ == id,
        forall|j: int| 0 <= j < i ==> s[j].worker_id@ != id,
    ensures
        first_with_id(s, id) == Some(i),
{
    let c = choose|c: int|
        0 <= c < s.len() && s[c].worker_id@ == id && forall|j: int| 0 <= j < c ==> s[j].worker_id@ != id;
    assert(0 <= c < s.len() && s[c].worker_id@ == id && forall|j: int| 0 <= j < c ==> s[j].worker_id@ != id);
    if c < i {
        assert(s[c].worker_id@ != id);
    }
    if i < c {
        assert(s[i].worker_id@ != id);
    }
}

/// A worker handed back to the pool is the next one handed out, when no
/// worker before it in the pool is idle.
pub proof fn law_returned_worker_is_reused(s: Seq<WorkerHandle>, i: int)
    requires
        0 <= i < s.len(),
        forall|j: int| 0 <= j < i ==> s[j].status != WORKER_IDLE,
    ensures
        first_idle(s.update(i, with_status(s[i], WORKER_IDLE))) == Some(i),
{
    let s1 = s.update(i, with_status(s[i], WORKER_IDLE));
    assert forall|j: int| 0 <= j < i implies s1[j].status != WORKER_IDLE by {
        assert(s1[j] == s[j]);
    }
    lemma_first_idle_is(s1, i);
}

/// The workers of `s` that are dead, in order.
pub open spec fn dead_workers(s: Seq<WorkerHandle>) -> Seq<WorkerHandle> {
    s.filter(|w: WorkerHandle| w.status == WORKER_DEAD)
}

/// No two workers of `s` carry the same id.
pub open spec fn ids_distinct(s: Seq<WorkerHandle>) -> bool {
    forall|i: int, j: int| 0 <= i < j < s.len() ==> s[i].worker_id@ != s[j].worker_id@
}

/// If some worker of `s` has this id, the search finds the first one.
proof fn lemma_first_with_id_found(s: Seq<WorkerHandle>, id: Seq<u8>)
    requires
        exists|i: int| 0 <= i < s.len() && s[i].worker_id@ == id,
    ensures
        first_with_id(s, id) matches Some(k) && 0 <= k < s.len() && s[k].worker_id@ == id && forall|j: int|
            0 <= j < k ==> s[j].worker_id@ != id,
    decreases s.len(),
{
    let n = s.len() - 1;
    let s0 = s.drop_last();
    if exists|i: int| 0 <= i < s0.len() && s0[i].worker_id@ == id {
        lemma_first_with_id_found(s0, id);
        let k = first_with_id(s0, id)->0;
        assert forall|j: int| 0 <= j < k implies s[j].worker_id@ != id by {
            assert(s[j] == s0[j]);
        }
        assert(s[k] == s0[k]);
        lemma_first_with_id_is(s, id, k);
    } else {
        let i = choose|i: int| 0 <= i < s.len() && s[i].worker_id@ == id;
        if i < n {
            assert(s0[i] == s[i]);
        }
        assert forall|j: int| 0 <= j < n implies s[j].worker_id@ != id by {
            assert(s[j] == s0[j]);
        }
        lemma_first_with_id_is(s, id, n);
    }
}

/// Two sequences with the same ids, position by position, find each id at
/// the same place.
proof fn lemma_first_with_id_same_ids(s: Seq<WorkerHandle>, t: Seq<WorkerHandle>, id: Seq<u8>)
    requires
        s.len() == t.len(),
        forall|j: int| 0 <= j < s.len() ==> #[trigger] s[j].worker_id@ == t[j].worker_id@,
    ensures
        first_with_id(s, id) == first_with_id(t, id),
{
    if exists|i: int| 0 <= i < s.len() && s[i].worker_id@ == id {
        lemma_first_with_id_found(s, id);
        let k = first_with_id(s, id)->0;
        assert(t[k].worker_id@ == s[k].worker_id@);
        assert forall|j: int| 0 <= j < k implies t[j].worker_id@ != id by {
            assert(s[j].worker_id@ == t[j].worker_id@);
        }
        lemma_first_with_id_is(t, id, k);
    } else {
        assert forall|i: int| 0 <= i < t.len() implies t[i].worker_id@ != id by {
            assert(s[i].worker_id@ == t[i].worker_id@);
        }
    }
}

/// After a status change at `i`, every id is found where it was, and any
/// other id reads the status it had.
proof fn lemma_status_change(s: Seq<WorkerHandle>, i: int, st: u8, other: Seq<u8>)
    requires
        0 <= i < s.len(),
        other != s[i].worker_id@,
    ensures
        first_with_id(s.update(i, with_status(s[i], st)), other) == first_with_id(s, other),
        first_with_id(s.update(i, with_status(s[i], st)), s[i].worker_id@) == first_with_id(s, s[i].worker_id@),
        first_with_id(s, other) matches Some(k) ==> k != i && s.update(i, with_status(s[i], st))[k] == s[k],
{
    let t = s.update(i, with_status(s[i], st));
    assert forall|j: int| 0 <= j < s.len() implies #[trigger] s[j].worker_id@ == t[j].worker_id@ by {}
    lemma_first_with_id_same_ids(s, t, other);
    lemma_first_with_id_same_ids(s, t, s[i].worker_id@);
    if exists|q: int| 0 <= q < s.len() && s[q].worker_id@ == other {
        lemma_first_with_id_found(s, other);
    }
}

/// The status of the worker with this id as every holder reads it: that of
/// the first worker with the id, in the pool or retired from it.
pub open spec fn status_in(s: Seq<WorkerHandle>, id: Seq<u8>) -> Option<u8> {
    match first_with_id(s, id) {
        Some(i) => Some(s[i].status),
        None => None,
    }
}

/// Setting the status of the worker found first for `id` is what is then
/// read for `id`; every other id reads what it read before.
proof fn lemma_status_read_back(s: Seq<WorkerHandle>, i: int, st: u8)
    requires
        0 <= i < s.len(),
        first_with_id(s, s[i].worker_id@) == Some(i),
    ensures
        status_in(s.update(i, with_status(s[i], st)), s[i].worker_id@) == Some(st),
        forall|other: Seq<u8>|
            other != s[i].worker_id@ ==> #[trigger] status_in(s.update(i, with_status(s[i], st)), other)
                == status_in(s, other),
{
    lemma_status_change(s, i, st, s[i].worker_id@ + seq![0u8]);
    assert forall|other: Seq<u8>| other != s[i].worker_id@ implies #[trigger] status_in(
        s.update(i, with_status(s[i], st)),
        other,
    ) == status_in(s, other) by {
        lemma_status_change(s, i, st, other);
    }
}

/// A killed worker reads dead afterwards, when ids are distinct: it is no
/// longer in the pool and its retired entry is the only one with its id.
proof fn lemma_killed_reads_dead(ws: Seq<WorkerHandle>, ret: Seq<WorkerHandle>, i: int)
    requires
        0 <= i < ws.len(),
        ids_distinct(ws + ret),
    ensures
        ({
            let w1 = ws.update(i, with_status(ws[i], WORKER_DEAD));
            status_in(live_workers(w1) + (ret + dead_workers(w1)), ws[i].worker_id@) == Some(WORKER_DEAD)
        }),
{
    let id = ws[i].worker_id@;
    let w1 = ws.update(i, with_status(ws[i], WORKER_DEAD));
    let pl = |w: WorkerHandle| w.status != WORKER_DEAD;
    let pd = |w: WorkerHandle| w.status == WORKER_DEAD;
    let live = w1.filter(pl);
    let dead = w1.filter(pd);
    let k_all = live + (ret + dead);
    assert(ws + ret == (ws + ret));
    assert forall|a: int, b: int| 0 <= a < w1.len() && 0 <= b < w1.len() && a != b implies w1[a].worker_id@
        != w1[b].worker_id@ by {
        assert(w1[a].worker_id@ == (ws + ret)[a].worker_id@);
        assert(w1[b].worker_id@ == (ws + ret)[b].worker_id@);
    }
    w1.lemma_filter_contains(pd, i);
    let m = dead.index_of(w1[i]);
    assert(k_all[live.len() + ret.len() + m] == w1[i]);
    lemma_first_with_id_found(k_all, id);
    let k = first_with_id(k_all, id)->0;
    if k < live.len() {
        assert(k_all[k] == live[k]);
        w1.lemma_filter_pred(pl, k);
        assert(live.contains(live[k]));
        w1.lemma_filter_contains_rev(pl, live[k]);
        let q = w1.index_of(live[k]);
        assert(w1[q].worker_id@ == id);
        assert(q == i);
        assert(false);
    } else if k < live.len() + ret.len() {
        let r = k - live.len();
        assert(k_all[k] == ret[r]);
        assert((ws + ret)[ws.len() + r] == ret[r]);
        assert((ws + ret)[i] == ws[i]);
        assert(false);
    } else {
        let d = k - live.len() - ret.len();
        assert(k_all[k] == dead[d]);
        w1.lemma_filter_pred(pd, d);
    }
}

/// Moving the dead workers of the pool to the retired list leaves a worker
/// that read dead reading dead, when ids are distinct.
proof fn lemma_dead_stays_dead(ws: Seq<WorkerHandle>, ret: Seq<WorkerHandle>, id: Seq<u8>)
    requires
        ids_distinct(ws + ret),
        status_in(ws + ret, id) == Some(WORKER_DEAD),
    ensures
        status_in(live_workers(ws) + (ret + dead_workers(ws)), id) == Some(WORKER_DEAD),
{
    let all = ws + ret;
    let pl = |w: WorkerHandle| w.status != WORKER_DEAD;
    let pd = |w: WorkerHandle| w.status == WORKER_DEAD;
    let live = ws.filter(pl);
    let dead = ws.filter(pd);
    let k_all = live + (ret + dead);
    let wl = ws.len();
    if !exists|i: int| 0 <= i < all.len() && all[i].worker_id@ == id {
        assert(first_with_id(all, id) is None);
        assert(false);
    }
    lemma_first_with_id_found(all, id);
    let k0 = first_with_id(all, id)->0;
    assert(all[k0].status == WORKER_DEAD);
    if k0 < wl {
        assert(all[k0] == ws[k0]);
        ws.lemma_filter_contains(pd, k0);
        let m = dead.index_of(ws[k0]);
        assert(k_all[live.len() + ret.len() + m] == ws[k0]);
    } else {
        assert(all[k0] == ret[k0 - wl]);
        assert(k_all[live.len() + (k0 - wl)] == ret[k0 - wl]);
    }
    lemma_first_with_id_found(k_all, id);
    let k = first_with_id(k_all, id)->0;
    if k < live.len() {
        assert(k_all[k] == live[k]);
        ws.lemma_filter_pred(pl, k);
        assert(live.contains(live[k]));
        ws.lemma_filter_contains_rev(pl, live[k]);
        let q = ws.index_of(live[k]);
        assert(all[q] == ws[q]);
        assert(all[q].worker_id@ == id);
        assert(q == k0);
        assert(false);
    } else if k < live.len() + ret.len() {
        let r = k - live.len();
        assert(k_all[k] == ret[r]);
        assert(all[wl + r] == ret[r]);
        assert(wl + r == k0);
    } else {
        let d = k - live.len() - ret.len();
        assert(k_all[k] == dead[d]);
        ws.lemma_filter_pred(pd, d);
    }
}

/// Manages a pool of workers, providing allocation and recycling.
///
/// The pool is the one place that holds the status of each worker it
/// spawned; whoever holds a worker's id reads and changes that status
/// through the pool. Workers removed from the pool are kept as retired,
/// with the status they last had.
pub struct WorkerPool {
    workers: Vec<WorkerHandle>,
    retired: Vec<WorkerHandle>,
    max_workers: usize,
}

impl WorkerPool {
    /// The workers in the pool, in the order they were spawned.
    pub closed spec fn workers(&self) -> Seq<WorkerHandle> {
        self.workers@
    }

    /// The workers removed from the pool, in the order they were removed.
    pub closed spec fn retired(&self) -> Seq<WorkerHandle> {
        self.retired@
    }

    /// Every worker the pool spawned: those in the pool, then the retired.
    pub open spec fn known(&self) -> Seq<WorkerHandle> {
        self.workers() + self.retired()
    }

    /// The status that every holder of this worker id reads.
    pub open spec fn status_of(&self, id: Seq<u8>) -> Option<u8> {
        status_in(self.known(), id)
    }

    /// The most workers the pool spawns.
    pub closed spec fn capacity(&self) -> usize {
        self.max_workers
    }

    /// The pool holds at most its capacity of workers. `new` establishes it
    /// and every operation keeps it, so it holds after any sequence of
    /// calls on a pool made by `new`.
    pub open spec fn within_capacity(&self) -> bool {
        self.workers().len() <= self.capacity()
    }

    /// Create a new worker pool with the given capacity.
    pub fn new(max_workers: usize) -> (p: Self)
        ensures
            p.workers() == Seq::<WorkerHandle>::empty(),
            p.retired() == Seq::<WorkerHandle>::empty(),
            p.capacity() == max_workers,
            p.within_capacity(),
    {
        WorkerPool { workers: Vec::new(), retired: Vec::new(), max_workers }
    }

    fn find_idle(&self) -> (r: Option<usize>)
        ensures
            match r {
                Some(i) => i < self.workers().len() && first_idle(self.workers()) == Some(i as int),
                None => first_idle(self.workers()) is None,
            },
    {
        let mut i: usize = 0;
        while i < self.workers.len()
            invariant
                i <= self.workers@.len(),
                forall|j: int| 0 <= j < i ==> self.workers@[j].status != WORKER_IDLE,
            decreases self.workers@.len() - i,
        {
            if self.workers[i].is_idle() {
                proof {
                    lemma_first_idle_is(self.workers@, i as int);
                }
                return Some(i);
            }
            i = i + 1;
        }
        None
    }

    fn find_id(&self, worker_id: &WorkerId) -> (r: Option<usize>)
        ensures
            match r {
                Some(i) => i < self.workers().len() && first_with_id(self.workers(), worker_id@) == Some(i as int),
                None => first_with_id(self.workers(), worker_id@) is None,
            },
    {
        let mut i: usize = 0;
        while i < self.workers.len()
            invariant
                i <= self.workers@.len(),
                forall|j: int| 0 <= j < i ==> self.workers@[j].worker_id@ != worker_id@,
            decreases self.workers@.len() - i,
        {
            if self.workers[i].worker_id == *worker_id {
                proof {
                    lemma_first_with_id_is(self.workers@, worker_id@, i as int);
                }
                return Some(i);
            }
            i = i + 1;
        }
        None
    }

    /// Where the worker with this id is first found among all known
    /// workers: in the pool (`true`) or among the retired (`false`), and at
    /// which position of that list.
    fn locate(&self, worker_id: &WorkerId) -> (r: Option<(bool, usize)>)
        ensures
            match r {
                Some((in_pool, x)) => {
                    &&& in_pool ==> x < self.workers().len()
                    &&& !in_pool ==> x < self.retired().len()
                    &&& first_with_id(self.known(), worker_id@) == Some(
                        if in_pool { x as int } else { self.workers().len() + x },
                    )
                },
                None => first_with_id(self.known(), worker_id@) is None,
            },
    {
        let ghost all = self.known();
        let wl = self.workers.len();
        let mut i: usize = 0;
        while i < wl
            invariant
                wl == self.workers@.len(),
                all == self.known(),
                i <= wl,
                forall|j: int| 0 <= j < i ==> all[j].worker_id@ != worker_id@,
            decreases wl - i,
        {
            if self.workers[i].worker_id == *worker_id {
                proof {
                    assert(all[i as int] == self.workers@[i as int]);
                    lemma_first_with_id_is(all, worker_id@, i as int);
                }
                return Some((true, i));
            }
            assert(all[i as int] == self.workers@[i as int]);
            i = i + 1;
        }
        let mut j: usize = 0;
        while j < self.retired.len()
            invariant
                wl == self.workers@.len(),
                all == self.known(),
                all.len() == wl + self.retired@.len(),
                j <= self.retired@.len(),
                forall|q: int| 0 <= q < wl + j ==> all[q].worker_id@ != worker_id@,
            decreases self.retired@.len() - j,
        {
            assert(all[wl + j as int] == self.retired@[j as int]);
            if self.retired[j].worker_id == *worker_id {
                proof {
                    lemma_first_with_id_is(all, worker_id@, wl + j as int);
                }
                return Some((false, j));
            }
            j = j + 1;
        }
        None
    }

    /// Sets the status of a known worker: the `x`-th of the pool, or of the
    /// retired list.
    fn set_status(&mut self, in_pool: bool, x: usize, st: u8)
        requires
            in_pool ==> x < old(self).workers().len(),
            !in_pool ==> x < old(self).retired().len(),
        ensures
            ({
                let k = if in_pool { x as int } else { old(self).workers().len() + x };
                final(self).known() == old(self).known().update(k, with_status(old(self).known()[k], st))
            }),
            final(self).workers().len() == old(self).workers().len(),
            final(self).capacity() == old(self).capacity(),
    {
        let ghost all = self.known();
        let ghost k = if in_pool { x as int } else { self.workers@.len() + x };
        if in_pool {
            self.workers[x].status = st;
        } else {
            self.retired[x].status = st;
        }
        assert(self.known() =~= all.update(k, with_status(all[k], st)));
    }

    fn mark(&mut self, worker_id: &WorkerId, st: u8)
        ensures
            final(self).workers().len() == old(self).workers().len(),
            final(self).capacity() == old(self).capacity(),
            match first_with_id(old(self).known(), worker_id@) {
                Some(i) => final(self).known() == old(self).known().update(
                    i,
                    with_status(old(self).known()[i], st),
                ),
                None => final(self).known() == old(self).known(),
            },
            old(self).status_of(worker_id@) is Some ==> final(self).status_of(worker_id@) == Some(st),
            forall|other: Seq<u8>| other != worker_id@ ==> #[trigger] final(self).status_of(other) == old(self).status_of(other),
    {
        match self.locate(worker_id) {
            Some((in_pool, x)) => {
                proof {
                    let k = if in_pool { x as int } else { self.workers().len() + x };
                    lemma_first_with_id_found(self.known(), worker_id@);
                    lemma_status_read_back(self.known(), k, st);
                }
                self.set_status(in_pool, x, st);
            },
            None => {},
        }
    }

    /// Whether the worker with this id is idle (available for work).
    pub fn is_idle(&self, worker_id: &WorkerId) -> (b: bool)
        ensures
            b == (self.status_of(worker_id@) == Some(WORKER_IDLE)),
    {
        match self.locate(worker_id) {
            Some((in_pool, x)) => {
                if in_pool {
                    self.workers[x].is_idle()
                } else {
                    self.retired[x].is_idle()
                }
            },
            None => false,
        }
    }

    /// Whether the worker with this id is busy (currently executing).
    pub fn is_busy(&self, worker_id: &WorkerId) -> (b: bool)
        ensures
            b == (self.status_of(worker_id@) == Some(WORKER_BUSY)),
    {
        match self.locate(worker_id) {
            Some((in_pool, x)) => {
                if in_pool {
                    self.workers[x].is_busy()
                } else {
                    self.retired[x].is_busy()
                }
            },
            None => false,
        }
    }

    /// Whether the worker with this id is dead (process exited).
    pub fn is_dead(&self, worker_id: &WorkerId) -> (b: bool)
        ensures
            b == (self.status_of(worker_id@) == Some(WORKER_DEAD)),
    {
        match self.locate(worker_id) {
            Some((in_pool, x)) => {
                if in_pool {
                    self.workers[x].is_dead()
                } else {
                    self.retired[x].is_dead()
                }
            },
            None => false,
        }
    }

    /// Mark the worker with this id busy; every holder of the id then reads
    /// busy. An id the pool never spawned changes nothing.
    pub fn mark_busy(&mut self, worker_id: &WorkerId)
        ensures
            final(self).workers().len() == old(self).workers().len(),
            final(self).capacity() == old(self).capacity(),
            match first_with_id(old(self).known(), worker_id@) {
                Some(i) => final(self).known() == old(self).known().update(
                    i,
                    with_status(old(self).known()[i], WORKER_BUSY),
                ),
                None => final(self).known() == old(self).known(),
            },
            old(self).status_of(worker_id@) is Some ==> final(self).status_of(worker_id@) == Some(WORKER_BUSY),
            forall|other: Seq<u8>| other != worker_id@ ==> #[trigger] final(self).status_of(other) == old(self).status_of(other),
    {
        self.mark(worker_id, WORKER_BUSY);
    }

    /// Mark the worker with this id idle; every holder of the id then reads
    /// idle. An id the pool never spawned changes nothing.
    pub fn mark_idle(&mut self, worker_id: &WorkerId)
        ensures
            final(self).workers().len() == old(self).workers().len(),
            final(self).capacity() == old(self).capacity(),
            match first_with_id(old(self).known(), worker_id@) {
                Some(i) => final(self).known() == old(self).known().update(
                    i,
                    with_status(old(self).known()[i], WORKER_IDLE),
                ),
                None => final(self).known() == old(self).known(),
            },
            old(self).status_of(worker_id@) is Some ==> final(self).status_of(worker_id@) == Some(WORKER_IDLE),
            forall|other: Seq<u8>| other != worker_id@ ==> #[trigger] final(self).status_of(other) == old(self).status_of(other),
    {
        self.mark(worker_id, WORKER_IDLE);
    }

    /// Mark the worker with this id dead, leaving it in the pool; every
    /// holder of the id then reads dead. An id the pool never spawned
    /// changes nothing.
    pub fn mark_dead(&mut self, worker_id: &WorkerId)
        ensures
            final(self).workers().len() == old(self).workers().len(),
            final(self).capacity() == old(self).capacity(),
            match first_with_id(old(self).known(), worker_id@) {
                Some(i) => final(self).known() == old(self).known().update(
                    i,
                    with_status(old(self).known()[i], WORKER_DEAD),
                ),
                None => final(self).known() == old(self).known(),
            },
            old(self).status_of(worker_id@) is Some ==> final(self).status_of(worker_id@) == Some(WORKER_DEAD),
            forall|other: Seq<u8>| other != worker_id@ ==> #[trigger] final(self).status_of(other) == old(self).status_of(other),
    {
        self.mark(worker_id, WORKER_DEAD);
    }

    /// Get an idle worker from the pool (the first one), marking it busy, or
    /// spawn a new busy worker in process `pid` if under capacity. Returns
    /// the worker's id, or `None` if no worker is idle and the pool is at
    /// capacity.
    pub fn get_worker(&mut self, pid: u32) -> (r: Option<WorkerId>)
        ensures
            old(self).within_capacity() ==> final(self).within_capacity(),
            final(self).capacity() == old(self).capacity(),
            final(self).retired() == old(self).retired(),
            match first_idle(old(self).workers()) {
                Some(i) => {
                    &&& r == Some(old(self).workers()[i].worker_id)
                    &&& final(self).workers() == old(self).workers().update(
                        i,
                        with_status(old(self).workers()[i], WORKER_BUSY),
                    )
                },
                None => if old(self).workers().len() < old(self).capacity() {
                    &&& r matches Some(id) && is_fresh_id_bytes(id@)
                    &&& final(self).workers() == old(self).workers().push(
                        WorkerHandle { worker_id: r->0, pid, status: WORKER_BUSY },
                    )
                } else {
                    &&& r is None
                    &&& final(self).workers() == old(self).workers()
                },
            },
            old(self).within_capacity() ==> (r is None <==> first_idle(old(self).workers()) is None
                && old(self).workers().len() == old(self).capacity()),
            ids_distinct(old(self).known()) && first_idle(old(self).workers()) is Some ==> (r matches Some(id)
                && final(self).status_of(id@) == Some(WORKER_BUSY)),
    {
        match self.find_idle() {
            Some(i) => {
                let ghost all0 = self.known();
                self.workers[i].mark_busy();
                proof {
                    let all1 = self.known();
                    let id = all1[i as int].worker_id@;
                    assert(all1[i as int] == self.workers@[i as int]);
                    if ids_distinct(all0) {
                        assert forall|j: int| 0 <= j < i implies all1[j].worker_id@ != id by {
                            assert(all1[j].worker_id@ == all0[j].worker_id@);
                            assert(all0[i as int].worker_id@ == id);
                        }
                        lemma_first_with_id_is(all1, id, i as int);
                    }
                }
                Some(self.workers[i].worker_id.clone())
            },
            None => {
                if self.workers.len() < self.max_workers {
                    let mut handle = WorkerHandle::new_in_process(pid);
                    handle.mark_busy();
                    let id = handle.worker_id.clone();
                    self.workers.push(handle);
                    Some(id)
                } else {
                    None
                }
            },
        }
    }

    /// Moves every dead worker out of the pool into the retired list.
    fn remove_dead(&mut self)
        ensures
            final(self).capacity() == old(self).capacity(),
            final(self).workers() == live_workers(old(self).workers()),
            final(self).retired() == old(self).retired() + dead_workers(old(self).workers()),
            final(self).workers().len() <= old(self).workers().len(),
            forall|i: int| 0 <= i < final(self).workers().len() ==> (#[trigger] final(self).workers()[i]).status != WORKER_DEAD,
    {
        let ghost ret0 = self.retired@;
        let mut kept: Vec<WorkerHandle> = Vec::new();
        let mut i: usize = 0;
        while i < self.workers.len()
            invariant
                i <= self.workers@.len(),
                self.workers@ == old(self).workers@,
                self.max_workers == old(self).max_workers,
                kept@ == live_workers(self.workers@.subrange(0, i as int)),
                self.retired@ == ret0 + dead_workers(self.workers@.subrange(0, i as int)),
            decreases self.workers@.len() - i,
        {
            if self.workers[i].is_dead() {
                let h = self.workers[i].clone();
                self.retired.push(h);
            } else {
                kept.push(self.workers[i].clone());
            }
            proof {
                let sub = self.workers@.subrange(0, i as int + 1);
                assert(sub.drop_last() =~= self.workers@.subrange(0, i as int));
                reveal(Seq::filter);
                assert(self.retired@ =~= ret0 + dead_workers(sub));
            }
            i = i + 1;
        }
        proof {
            assert(self.workers@.subrange(0, self.workers@.len() as int) =~= self.workers@);
        }
        self.workers = kept;
        proof {
            old(self).workers@.lemma_filter_len(|w: WorkerHandle| w.status != WORKER_DEAD);
            assert forall|i: int| 0 <= i < self.workers@.len() implies (#[trigger] self.workers@[i]).status != WORKER_DEAD by {
                old(self).workers@.lemma_filter_pred(|w: WorkerHandle| w.status != WORKER_DEAD, i);
            }
        }
    }

    /// Return a worker to the pool. If the worker (as every holder reads it)
    /// is dead, all dead workers leave the pool; otherwise it is marked
    /// idle. An id the pool never spawned changes nothing.
    pub fn return_worker(&mut self, worker_id: &WorkerId)
        ensures
            old(self).within_capacity() ==> final(self).within_capacity(),
            final(self).capacity() == old(self).capacity(),
            match first_with_id(old(self).known(), worker_id@) {
                Some(i) => if old(self).known()[i].status == WORKER_DEAD {
                    &&& final(self).workers() == live_workers(old(self).workers())
                    &&& final(self).retired() == old(self).retired() + dead_workers(old(self).workers())
                } else {
                    &&& final(self).known() == old(self).known().update(
                        i,
                        with_status(old(self).known()[i], WORKER_IDLE),
                    )
                    &&& final(self).workers().len() == old(self).workers().len()
                },
                None => final(self).workers() == old(self).workers() && final(self).retired() == old(self).retired(),
            },
            old(self).status_of(worker_id@) matches Some(st) && st != WORKER_DEAD ==> final(self).status_of(worker_id@)
                == Some(WORKER_IDLE),
            ids_distinct(old(self).known()) && old(self).status_of(worker_id@) == Some(WORKER_DEAD)
                ==> final(self).status_of(worker_id@) == Some(WORKER_DEAD),
    {
        let ghost ws0 = self.workers@;
        let ghost ret0 = self.retired@;
        match self.locate(worker_id) {
            Some((in_pool, x)) => {
                let dead = if in_pool {
                    self.workers[x].is_dead()
                } else {
                    self.retired[x].is_dead()
                };
                if dead {
                    self.remove_dead();
                    proof {
                        if ids_distinct(ws0 + ret0) && status_in(ws0 + ret0, worker_id@) == Some(WORKER_DEAD) {
                            lemma_dead_stays_dead(ws0, ret0, worker_id@);
                            assert(self.known() =~= live_workers(ws0) + (ret0 + dead_workers(ws0)));
                        }
                    }
                } else {
                    proof {
                        let k = if in_pool { x as int } else { self.workers().len() + x };
                        lemma_first_with_id_found(self.known(), worker_id@);
                        lemma_status_read_back(self.known(), k, WORKER_IDLE);
                    }
                    self.set_status(in_pool, x, WORKER_IDLE);
                }
            },
            None => {},
        }
    }

    /// Kill a specific worker: the first worker in the pool with this id is
    /// marked dead, then all dead workers leave the pool. When ids are
    /// distinct, every holder of the id then reads dead.
    pub fn kill_worker(&mut self, worker_id: &WorkerId)
        ensures
            forall|i: int| 0 <= i < final(self).workers().len() ==> (#[trigger] final(self).workers()[i]).status != WORKER_DEAD,
            old(self).within_capacity() ==> final(self).within_capacity(),
            final(self).capacity() == old(self).capacity(),
            match first_with_id(old(self).workers(), worker_id@) {
                Some(i) => {
                    let ws = old(self).workers().update(i, with_status(old(self).workers()[i], WORKER_DEAD));
                    &&& final(self).workers() == live_workers(ws)
                    &&& final(self).retired() == old(self).retired() + dead_workers(ws)
                },
                None => {
                    &&& final(self).workers() == live_workers(old(self).workers())
                    &&& final(self).retired() == old(self).retired() + dead_workers(old(self).workers())
                },
            },
            ids_distinct(old(self).known()) && first_with_id(old(self).workers(), worker_id@) is Some
                ==> final(self).status_of(worker_id@) == Some(WORKER_DEAD),
    {
        let ghost ws0 = self.workers@;
        let ghost ret0 = self.retired@;
        match self.find_id(worker_id) {
            Some(i) => {
                proof {
                    lemma_first_with_id_found(ws0, worker_id@);
                }
                self.workers[i].mark_dead();
                assert(self.workers@ =~= ws0.update(i as int, with_status(ws0[i as int], WORKER_DEAD)));
                self.remove_dead();
                proof {
                    if ids_distinct(ws0 + ret0) {
                        lemma_killed_reads_dead(ws0, ret0, i as int);
                        assert(self.known() =~= live_workers(ws0.update(i as int, with_status(ws0[i as int], WORKER_DEAD))) + (ret0 + dead_workers(ws0.update(i as int, with_status(ws0[i as int], WORKER_DEAD)))));
                    }
                }
            },
            None => {
                self.remove_dead();
            },
        }
    }

    fn count_with_status(&self, st: u8) -> (n: usize)
        ensures
            n == count_status(self.workers(), st),
    {
        let mut n: usize = 0;
        let mut i: usize = 0;
        while i < self.workers.len()
            invariant
                i <= self.workers@.len(),
                n == count_status(self.workers@.subrange(0, i as int), st),
                n <= i,
            decreases self.workers@.len() - i,
        {
            proof {
                let sub = self.workers@.subrange(0, i as int + 1);
                assert(sub.drop_last() =~= self.workers@.subrange(0, i as int));
                reveal(Seq::filter);
            }
            if self.workers[i].status == st {
                n = n + 1;
            }
            i = i + 1;
        }
        proof {
            assert(self.workers@.subrange(0, self.workers@.len() as int) =~= self.workers@);
        }
        n
    }

    /// Get the number of idle workers in the pool.
    pub fn idle_count(&self) -> (n: usize)
        ensures
            n == count_status(self.workers(), WORKER_IDLE),
    {
        self.count_with_status(WORKER_IDLE)
    }

    /// Get the number of busy workers in the pool.
    pub fn busy_count(&self) -> (n: usize)
        ensures
            n == count_status(self.workers(), WORKER_BUSY),
    {
        self.count_with_status(WORKER_BUSY)
    }

    /// Get the total number of workers in the pool.
    pub fn total_count(&self) -> (n: usize)
        ensures
            n == self.workers().len(),
    {
        self.workers.len()
    }
}

} // verus!
