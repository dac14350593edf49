//! The decisions of the node-local scheduler: task statuses and the queue of
//! tasks waiting for resources.
//!
//! The scheduler's event loop receives submit / cancel / status commands and,
//! after each one, offers the queued tasks to the node's resources again.
//! Whether a resource request is granted is decided by the resource manager;
//! this module takes those answers as plain booleans and does the rest.

use vstd::prelude::*;
use vstd::string::*;
use crate::error::{RayError, RayResult};
use crate::id::TaskId;
use crate::table::Table;
use crate::text::hex_text;
use crate::types::{TaskSpec, TaskStatus};
use crate::object_store::pairs_upto;

verus! {

/// The queued tasks whose resource request was not granted, in order.
pub open spec fn still_pending<R>(p: Seq<TaskSpec<R>>, g: Seq<bool>) -> Seq<TaskSpec<R>>
    decreases p.len(),
{
    if p.len() == 0 {
        Seq::empty()
    } else {
        let rest = still_pending(p.drop_last(), g.take(p.len() - 1));
        if g[p.len() - 1] {
            rest
        } else {
            rest.push(p.last())
        }
    }
}

/// The statuses after every granted queued task has started running.
pub open spec fn mark_granted<R>(m: Map<Seq<u8>, TaskStatus>, p: Seq<TaskSpec<R>>, g: Seq<bool>) -> Map<Seq<u8>, TaskStatus>
    decreases p.len(),
{
    if p.len() == 0 {
        m
    } else {
        let m1 = mark_granted(m, p.drop_last(), g.take(p.len() - 1));
        if g[p.len() - 1] {
            m1.insert(p.last().task_id@, TaskStatus::Running)
        } else {
            m1
        }
    }
}

/// The ids of the queued tasks.
pub open spec fn queued_ids<R>(p: Seq<TaskSpec<R>>) -> Seq<Seq<u8>> {
    p.map_values(|t: TaskSpec<R>| t.task_id@)
}

/// The debug form of a task id, as it appears in error messages.
pub open spec fn task_id_text(id: Seq<u8>) -> Seq<char> {
    "TaskId("@ + hex_text(id.subrange(0, 4)) + ")"@
}

/// Task statuses and the queue of tasks waiting for resources.
pub struct SchedulerState<R> {
    task_statuses: Table<TaskId, TaskStatus>,
    pending_queue: Vec<TaskSpec<R>>,
}

impl<R> SchedulerState<R> {
    /// The known tasks and their statuses.
    pub closed spec fn statuses(&self) -> Map<Seq<u8>, TaskStatus> {
        self.task_statuses@
    }

    /// The tasks waiting for resources, oldest first.
    pub closed spec fn pending(&self) -> Seq<TaskSpec<R>> {
        self.pending_queue@
    }

    pub closed spec fn wf(&self) -> bool {
        self.task_statuses.wf()
    }

    /// A task waits in the queue exactly while its status is `Pending`, and
    /// it waits there at most once.
    pub open spec fn queue_matches_statuses(&self) -> bool {
        &&& queued_ids(self.pending()).no_duplicates()
        &&& forall|i: int|
            0 <= i < self.pending().len() ==> self.statuses().contains_key(#[trigger] self.pending()[i].task_id@)
                && self.statuses()[self.pending()[i].task_id@] == TaskStatus::Pending
        &&& forall|id: Seq<u8>|
            #[trigger] self.statuses().contains_key(id) && self.statuses()[id] == TaskStatus::Pending
                ==> queued_ids(self.pending()).contains(id)
    }

    /// No task known, nothing queued.
    pub fn new() -> (s: Self)
        ensures
            s.wf(),
            s.statuses() == Map::<Seq<u8>, TaskStatus>::empty(),
            s.pending() == Seq::<TaskSpec<R>>::empty(),
            s.queue_matches_statuses(),
    {
        let s = SchedulerState { task_statuses: Table::new(), pending_queue: Vec::new() };
        assert(queued_ids(s.pending()) =~= Seq::<Seq<u8>>::empty());
        s
    }

    /// A task was submitted: it runs if its resources were granted, and
    /// otherwise waits at the end of the queue with status `Pending`.
    pub fn submit(&mut self, spec: TaskSpec<R>, allocated: bool)
        requires
            old(self).wf(),
        ensures
            final(self).wf(),
            allocated ==> final(self).statuses() == old(self).statuses().insert(spec.task_id@, TaskStatus::Running)
                && final(self).pending() == old(self).pending(),
            !allocated ==> final(self).statuses() == old(self).statuses().insert(spec.task_id@, TaskStatus::Pending)
                && final(self).pending() == old(self).pending().push(spec),
            old(self).queue_matches_statuses() && !queued_ids(old(self).pending()).contains(spec.task_id@)
                ==> final(self).queue_matches_statuses(),
    {
        let ghost id = spec.task_id@;
        let key = spec.task_id.clone();
        if allocated {
            self.task_statuses.insert(key, TaskStatus::Running);
        } else {
            self.task_statuses.insert(key, TaskStatus::Pending);
            self.pending_queue.push(spec);
        }
        proof {
            if old(self).queue_matches_statuses() && !queued_ids(old(self).pending()).contains(id) {
                let p0 = old(self).pending();
                let p1 = self.pending();
                assert(queued_ids(p1) =~= if allocated { queued_ids(p0) } else { queued_ids(p0).push(id) });
                if !allocated {
                    assert forall|a: int, b: int| 0 <= a < queued_ids(p1).len() && 0 <= b < queued_ids(p1).len() && a != b
                        implies queued_ids(p1)[a] != queued_ids(p1)[b] by {
                        if a < p0.len() && b == p0.len() {
                            assert(queued_ids(p0)[a] == queued_ids(p1)[a]);
                        }
                        if b < p0.len() && a == p0.len() {
                            assert(queued_ids(p0)[b] == queued_ids(p1)[b]);
                        }
                    }
                }
                assert forall|i: int| 0 <= i < p1.len() implies self.statuses().contains_key(#[trigger] p1[i].task_id@)
                    && self.statuses()[p1[i].task_id@] == TaskStatus::Pending by {
                    if i < p0.len() {
                        assert(p1[i] == p0[i]);
                        assert(queued_ids(p0)[i] == p0[i].task_id@);
                    }
                }
                assert forall|q: Seq<u8>| #[trigger] self.statuses().contains_key(q) && self.statuses()[q] == TaskStatus::Pending
                    implies queued_ids(p1).contains(q) by {
                    if q == id {
                        assert(queued_ids(p1)[p0.len() as int] == id);
                    } else {
                        let k = queued_ids(p0).index_of(q);
                        assert(queued_ids(p1)[k] == queued_ids(p0)[k]);
                    }
                }
            }
        }
    }

    /// Cancels a task: a known task becomes `Cancelled`; every queued entry
    /// with this id leaves the queue.
    pub fn cancel(&mut self, task_id: &TaskId)
        requires
            old(self).wf(),
        ensures
            final(self).wf(),
            old(self).statuses().contains_key(task_id@) ==> final(self).statuses() == old(self).statuses().insert(
                task_id@,
                TaskStatus::Cancelled,
            ),
            !old(self).statuses().contains_key(task_id@) ==> final(self).statuses() == old(self).statuses(),
            final(self).pending() == old(self).pending().filter(|t: TaskSpec<R>| t.task_id@ != task_id@),
            old(self).queue_matches_statuses() ==> final(self).queue_matches_statuses(),
    {
        match self.task_statuses.find(task_id) {
            Some(i) => {
                let _ = self.task_statuses.replace_at(i, TaskStatus::Cancelled);
            },
            None => {},
        }
        let ghost p0 = self.pending_queue@;
        let ghost pred = |t: TaskSpec<R>| t.task_id@ != task_id@;
        let mut queue: Vec<TaskSpec<R>> = Vec::new();
        std::mem::swap(&mut queue, &mut self.pending_queue);
        let mut kept: Vec<TaskSpec<R>> = Vec::new();
        let ghost mut i: int = 0;
        while queue.len() > 0
            invariant
                0 <= i <= p0.len(),
                queue@ == p0.subrange(i, p0.len() as int),
                kept@ == p0.subrange(0, i).filter(pred),
                pred == (|t: TaskSpec<R>| t.task_id@ != task_id@),
            decreases queue@.len(),
        {
            let t = queue.remove(0);
            proof {
                let sub = p0.subrange(0, i + 1);
                assert(sub.drop_last() =~= p0.subrange(0, i));
                assert(sub.last() == t);
                reveal(Seq::filter);
            }
            if t.task_id != *task_id {
                kept.push(t);
            }
            proof {
                i = i + 1;
                assert(queue@ =~= p0.subrange(i, p0.len() as int));
            }
        }
        proof {
            assert(p0.subrange(0, p0.len() as int) =~= p0);
        }
        self.pending_queue = kept;
        proof {
            if old(self).queue_matches_statuses() {
                self.lemma_cancel_keeps_queue_matching(*old(self), task_id@, pred);
            }
        }
    }

    proof fn lemma_cancel_keeps_queue_matching(self, prev: Self, id: Seq<u8>, pred: spec_fn(TaskSpec<R>) -> bool)
        requires
            prev.queue_matches_statuses(),
            forall|t: TaskSpec<R>| #[trigger] pred(t) == (t.task_id@ != id),
            self.pending() == prev.pending().filter(pred),
            prev.statuses().contains_key(id) ==> self.statuses() == prev.statuses().insert(id, TaskStatus::Cancelled),
            !prev.statuses().contains_key(id) ==> self.statuses() == prev.statuses(),
        ensures
            self.queue_matches_statuses(),
    {
        let p0 = prev.pending();
        let p1 = self.pending();
        assert forall|i: int| 0 <= i < p1.len() implies self.statuses().contains_key(#[trigger] p1[i].task_id@)
            && self.statuses()[p1[i].task_id@] == TaskStatus::Pending by {
            p0.lemma_filter_pred(pred, i);
            assert(p1.contains(p1[i]));
            p0.lemma_filter_contains_rev(pred, p1[i]);
            let j = p0.index_of(p1[i]);
            assert(p0[j] == p1[i]);
        }
        lemma_filter_ids_distinct(p0, pred);
        assert forall|q: Seq<u8>| #[trigger] self.statuses().contains_key(q) && self.statuses()[q] == TaskStatus::Pending
            implies queued_ids(p1).contains(q) by {
            assert(q != id);
            assert(prev.statuses().contains_key(q) && prev.statuses()[q] == TaskStatus::Pending);
            let k = queued_ids(p0).index_of(q);
            assert(p0[k].task_id@ == q);
            p0.lemma_filter_contains(pred, k);
            let m = p1.index_of(p0[k]);
            assert(queued_ids(p1)[m] == q);
        }
    }

    /// The status of a task, or `TaskNotFound` with the id's debug form.
    pub fn status(&self, task_id: &TaskId) -> (r: RayResult<TaskStatus>)
        requires
            self.wf(),
        ensures
            self.statuses().contains_key(task_id@) ==> r == Ok::<TaskStatus, RayError>(self.statuses()[task_id@]),
            !self.statuses().contains_key(task_id@) ==> (r matches Err(RayError::TaskNotFound(m)) && m@
                == task_id_text(task_id@)),
    {
        match self.task_statuses.get(task_id) {
            Some(s) => Ok(*s),
            None => Err(RayError::TaskNotFound(task_id.debug_string())),
        }
    }

    /// The tasks waiting for resources, oldest first.
    pub fn pending_tasks(&self) -> (p: &Vec<TaskSpec<R>>)
        ensures
            p@ == self.pending(),
    {
        &self.pending_queue
    }

    /// The queued tasks were offered to the resources again, in queue order,
    /// and `grants[i]` says whether the request of the `i`-th was granted:
    /// granted tasks start running and leave the queue, the others keep
    /// their order.
    pub fn apply_grants(&mut self, grants: &[bool])
        requires
            old(self).wf(),
            grants@.len() == old(self).pending().len(),
        ensures
            final(self).wf(),
            final(self).pending() == still_pending(old(self).pending(), grants@),
            final(self).pending() == pairs_upto(old(self).pending(), grants@, old(self).pending().len()).filter(
                |x: (TaskSpec<R>, bool)| !x.1,
            ).map_values(|x: (TaskSpec<R>, bool)| x.0),
            final(self).statuses() == mark_granted(old(self).statuses(), old(self).pending(), grants@),
            old(self).queue_matches_statuses() ==> final(self).queue_matches_statuses(),
    {
        let ghost p0 = self.pending_queue@;
        let ghost m0 = self.task_statuses@;
        let mut queue: Vec<TaskSpec<R>> = Vec::new();
        std::mem::swap(&mut queue, &mut self.pending_queue);
        let mut kept: Vec<TaskSpec<R>> = Vec::new();
        let mut i: usize = 0;
        while queue.len() > 0
            invariant
                i <= p0.len(),
                grants@.len() == p0.len(),
                queue@ == p0.subrange(i as int, p0.len() as int),
                kept@ == still_pending(p0.take(i as int), grants@.take(i as int)),
                self.task_statuses.wf(),
                self.task_statuses@ == mark_granted(m0, p0.take(i as int), grants@.take(i as int)),
            decreases queue@.len(),
        {
            let t = queue.remove(0);
            proof {
                let sub = p0.take(i as int + 1);
                assert(sub.drop_last() =~= p0.take(i as int));
                assert(grants@.take(i as int + 1).take(i as int) =~= grants@.take(i as int));
                assert(sub.last() == t);
                assert(grants@.take(i as int + 1)[i as int] == grants@[i as int]);
            }
            if grants[i] {
                let key = t.task_id.clone();
                self.task_statuses.insert(key, TaskStatus::Running);
            } else {
                kept.push(t);
            }
            i = i + 1;
            proof {
                assert(queue@ =~= p0.subrange(i as int, p0.len() as int));
            }
        }
        proof {
            assert(p0.take(p0.len() as int) =~= p0);
            assert(grants@.take(p0.len() as int) =~= grants@);
        }
        self.pending_queue = kept;
        proof {
            if old(self).queue_matches_statuses() {
                lemma_grants_keep_queue_matching(*old(self), *self, grants@);
            }
            law_waiting_tasks_keep_queue_order(p0, grants@);
        }
    }
}

proof fn lemma_grants_keep_queue_matching<R>(prev: SchedulerState<R>, next: SchedulerState<R>, g: Seq<bool>)
    requires
        prev.queue_matches_statuses(),
        g.len() == prev.pending().len(),
        next.pending() == still_pending(prev.pending(), g),
        next.statuses() == mark_granted(prev.statuses(), prev.pending(), g),
    ensures
        next.queue_matches_statuses(),
{
    let p = prev.pending();
    let m = prev.statuses();
    lemma_still_pending_members(p, g);
    lemma_still_pending_distinct(p, g);
    assert forall|k: int| 0 <= k < next.pending().len() implies next.statuses().contains_key(#[trigger] next.pending()[k].task_id@)
        && next.statuses()[next.pending()[k].task_id@] == TaskStatus::Pending by {
        let x = next.pending()[k];
        assert(next.pending().contains(x));
        let i = choose|i: int| 0 <= i < p.len() && p[i] == x && !g[i];
        lemma_mark_granted_at(m, p, g, x.task_id@);
        if exists|j: int| 0 <= j < p.len() && g[j] && #[trigger] p[j].task_id@ == x.task_id@ {
            let j = choose|j: int| 0 <= j < p.len() && g[j] && #[trigger] p[j].task_id@ == x.task_id@;
            assert(queued_ids(p)[j] == queued_ids(p)[i]);
        }
    }
    assert forall|id: Seq<u8>| #[trigger] next.statuses().contains_key(id) && next.statuses()[id] == TaskStatus::Pending
        implies queued_ids(next.pending()).contains(id) by {
        lemma_mark_granted_at(m, p, g, id);
        let i = queued_ids(p).index_of(id);
        assert(p[i].task_id@ == id);
        if g[i] {
            assert(exists|j: int| 0 <= j < p.len() && g[j] && #[trigger] p[j].task_id@ == id);
        }
        assert(next.pending().contains(p[i]));
        let k = next.pending().index_of(p[i]);
        assert(queued_ids(next.pending())[k] == id);
    }
}

/// Offering the queue keeps the tasks not granted in queue order: the
/// tasks left waiting are vstd's filter of the queue, paired with the
/// grants, by "not granted". So of two tasks left waiting, the one queued
/// earlier stays ahead.
pub proof fn law_waiting_tasks_keep_queue_order<R>(p: Seq<TaskSpec<R>>, g: Seq<bool>)
    requires
        g.len() == p.len(),
    ensures
        still_pending(p, g) == pairs_upto(p, g, p.len()).filter(|x: (TaskSpec<R>, bool)| !x.1).map_values(
            |x: (TaskSpec<R>, bool)| x.0,
        ),
    decreases p.len(),
{
    let pred = |x: (TaskSpec<R>, bool)| !x.1;
    let fst = |x: (TaskSpec<R>, bool)| x.0;
    let s = pairs_upto(p, g, p.len());
    reveal(Seq::filter);
    if p.len() == 0 {
        assert(s.filter(pred) =~= Seq::<(TaskSpec<R>, bool)>::empty());
        assert(s.filter(pred).map_values(fst) =~= Seq::<TaskSpec<R>>::empty());
    } else {
        let n = p.len() - 1;
        let p0 = p.drop_last();
        let g0 = g.take(n);
        law_waiting_tasks_keep_queue_order(p0, g0);
        assert(s.drop_last() =~= pairs_upto(p0, g0, p0.len()));
        let sub = pairs_upto(p0, g0, p0.len()).filter(pred);
        if pred(s.last()) {
            assert(s.filter(pred) == sub.push(s.last()));
            assert(sub.push(s.last()).map_values(fst) =~= sub.map_values(fst).push(p[n]));
        } else {
            assert(s.filter(pred) == sub);
        }
    }
}

/// What `still_pending` keeps: exactly the queued tasks that were not granted.
proof fn lemma_still_pending_members<R>(p: Seq<TaskSpec<R>>, g: Seq<bool>)
    requires
        g.len() == p.len(),
    ensures
        forall|x: TaskSpec<R>| #[trigger] still_pending(p, g).contains(x) ==> exists|i: int|
            0 <= i < p.len() && p[i] == x && !g[i],
        forall|i: int| 0 <= i < p.len() && !g[i] ==> #[trigger] still_pending(p, g).contains(p[i]),
    decreases p.len(),
{
    if p.len() > 0 {
        let n = p.len() - 1;
        let p0 = p.drop_last();
        let g0 = g.take(n);
        lemma_still_pending_members(p0, g0);
        let r0 = still_pending(p0, g0);
        assert forall|x: TaskSpec<R>| #[trigger] still_pending(p, g).contains(x) implies exists|i: int|
            0 <= i < p.len() && p[i] == x && !g[i] by {
            if g[n] || x != p[n] {
                if !g[n] {
                    let k = still_pending(p, g).index_of(x);
                    assert(k < r0.len());
                    assert(r0[k] == x);
                    assert(r0.contains(x));
                }
                assert(r0.contains(x));
                let i = choose|i: int| 0 <= i < p0.len() && p0[i] == x && !g0[i];
                assert(p[i] == x && !g[i]);
            } else {
                assert(p[n] == x && !g[n]);
            }
        }
        assert forall|i: int| 0 <= i < p.len() && !g[i] implies #[trigger] still_pending(p, g).contains(p[i]) by {
            if i < n {
                assert(p0[i] == p[i] && g0[i] == g[i]);
                assert(r0.contains(p0[i]));
                let k = r0.index_of(p0[i]);
                if !g[n] {
                    assert(still_pending(p, g)[k] == r0[k]);
                }
            } else {
                assert(still_pending(p, g)[r0.len() as int] == p[n]);
            }
        }
    }
}

/// Not granting keeps ids distinct.
proof fn lemma_still_pending_distinct<R>(p: Seq<TaskSpec<R>>, g: Seq<bool>)
    requires
        g.len() == p.len(),
        queued_ids(p).no_duplicates(),
    ensures
        queued_ids(still_pending(p, g)).no_duplicates(),
    decreases p.len(),
{
    if p.len() > 0 {
        let n = p.len() - 1;
        let p0 = p.drop_last();
        let g0 = g.take(n);
        assert(queued_ids(p0) =~= queued_ids(p).drop_last());
        lemma_still_pending_distinct(p0, g0);
        lemma_still_pending_members(p0, g0);
        if !g[n] {
            let f0 = still_pending(p0, g0);
            let f = f0.push(p[n]);
            assert forall|a: int, b: int| 0 <= a < queued_ids(f).len() && 0 <= b < queued_ids(f).len() && a != b
                implies queued_ids(f)[a] != queued_ids(f)[b] by {
                if a < f0.len() && b < f0.len() {
                    assert(queued_ids(f)[a] == queued_ids(f0)[a]);
                    assert(queued_ids(f)[b] == queued_ids(f0)[b]);
                } else {
                    let c = if a < f0.len() { a } else { b };
                    assert(f0.contains(f0[c]));
                    let j = choose|j: int| 0 <= j < p0.len() && p0[j] == f0[c] && !g0[j];
                    assert(queued_ids(p)[j] == f0[c].task_id@);
                    assert(queued_ids(p)[n] == p[n].task_id@);
                }
            }
        }
    }
}

/// What `mark_granted` does: the id of a granted queued task is `Running`,
/// every other id keeps its status.
proof fn lemma_mark_granted_at<R>(m: Map<Seq<u8>, TaskStatus>, p: Seq<TaskSpec<R>>, g: Seq<bool>, id: Seq<u8>)
    requires
        g.len() == p.len(),
    ensures
        (exists|i: int| 0 <= i < p.len() && g[i] && #[trigger] p[i].task_id@ == id) ==> mark_granted(m, p, g).contains_key(id)
            && mark_granted(m, p, g)[id] == TaskStatus::Running,
        !(exists|i: int| 0 <= i < p.len() && g[i] && #[trigger] p[i].task_id@ == id) ==> (mark_granted(m, p, g).contains_key(id)
            == m.contains_key(id) && (m.contains_key(id) ==> mark_granted(m, p, g)[id] == m[id])),
    decreases p.len(),
{
    if p.len() > 0 {
        let n = p.len() - 1;
        let p0 = p.drop_last();
        let g0 = g.take(n);
        lemma_mark_granted_at(m, p0, g0, id);
        if exists|i: int| 0 <= i < p0.len() && g0[i] && #[trigger] p0[i].task_id@ == id {
            let i = choose|i: int| 0 <= i < p0.len() && g0[i] && #[trigger] p0[i].task_id@ == id;
            assert(g[i] && p[i].task_id@ == id);
        }
        if exists|i: int| 0 <= i < p.len() && g[i] && #[trigger] p[i].task_id@ == id {
            let i = choose|i: int| 0 <= i < p.len() && g[i] && #[trigger] p[i].task_id@ == id;
            if i < n {
                assert(g0[i] && p0[i].task_id@ == id);
            }
        }
    }
}

/// Filtering a queue whose task ids are distinct leaves distinct ids.
proof fn lemma_filter_ids_distinct<R>(s: Seq<TaskSpec<R>>, pred: spec_fn(TaskSpec<R>) -> bool)
    requires
        queued_ids(s).no_duplicates(),
    ensures
        queued_ids(s.filter(pred)).no_duplicates(),
    decreases s.len(),
{
    reveal(Seq::filter);
    if s.len() > 0 {
        let s0 = s.drop_last();
        assert(queued_ids(s0) =~= queued_ids(s).drop_last());
        lemma_filter_ids_distinct(s0, pred);
        if pred(s.last()) {
            let f0 = s0.filter(pred);
            let f = f0.push(s.last());
            assert(s.filter(pred) == f);
            assert forall|a: int, b: int| 0 <= a < queued_ids(f).len() && 0 <= b < queued_ids(f).len() && a != b
                implies queued_ids(f)[a] != queued_ids(f)[b] by {
                if a < f0.len() && b < f0.len() {
                    assert(queued_ids(f)[a] == queued_ids(f0)[a]);
                    assert(queued_ids(f)[b] == queued_ids(f0)[b]);
                } else if a < f0.len() {
                    assert(f0.contains(f0[a]));
                    s0.lemma_filter_contains_rev(pred, f0[a]);
                    let j = s0.index_of(f0[a]);
                    assert(queued_ids(s)[j] == f0[a].task_id@);
                    assert(queued_ids(s)[s.len() - 1] == s.last().task_id@);
                } else {
                    assert(f0.contains(f0[b]));
                    s0.lemma_filter_contains_rev(pred, f0[b]);
                    let j = s0.index_of(f0[b]);
                    assert(queued_ids(s)[j] == f0[b].task_id@);
                    assert(queued_ids(s)[s.len() - 1] == s.last().task_id@);
                }
            }
        } else {
            assert(s.filter(pred) == s0.filter(pred));
        }
    }
}

} // verus!
