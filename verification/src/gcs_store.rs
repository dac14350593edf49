//! The Global Control Store tables: nodes, actors, jobs and the last
//! resource-usage report of each node.

use vstd::prelude::*;
use vstd::string::*;
use crate::error::{RayError, RayResult};
use crate::id::{ActorId, JobId, NodeId};
use crate::table::{Table, lemma_map_of_at, lists_values};
use crate::text::hex_text;
use crate::types::{ActorInfo, ActorSpec, ActorState, JobInfo, NodeInfo, ResourceUsageInfo};

verus! {

/// `std::time::SystemTime`, a wall-clock reading.
#[verifier::external_type_specification]
#[verifier::external_body]
pub struct ExSystemTime(std::time::SystemTime);

/// `std::time::SystemTimeError`, a clock reading before the reference point.
#[verifier::external_type_specification]
#[verifier::external_body]
pub struct ExSystemTimeError(std::time::SystemTimeError);

/// Reads the wall clock through `std::time::SystemTime::now`; nothing is
/// claimed of the value.
#[verifier::external_body]
fn system_now() -> std::time::SystemTime {
    std::time::SystemTime::now()
}

/// The time elapsed since the Unix epoch, through
/// `SystemTime::duration_since(UNIX_EPOCH)`; an error for a reading before the
/// epoch. Nothing is claimed of the value.
#[verifier::external_body]
fn since_unix_epoch(t: &std::time::SystemTime) -> Result<std::time::Duration, std::time::SystemTimeError> {
    t.duration_since(std::time::UNIX_EPOCH)
}

/// `Duration::as_millis`: the whole milliseconds in `d`; nothing is claimed of
/// the value.
#[verifier::external_body]
fn duration_millis(d: &std::time::Duration) -> u128 {
    d.as_millis()
}

/// Milliseconds since the Unix epoch (0 for a clock before the epoch),
/// truncated to `i64`.
fn unix_time_ms() -> i64 {
    let now = system_now();
    let ms: u128 = match since_unix_epoch(&now) {
        Ok(d) => duration_millis(&d),
        Err(_) => 0,
    };
    ms as i64
}

/// The actor record that registering `spec` creates: pending, not yet
/// placed on a node (all-zero node id), never restarted.
pub open spec fn registered_actor<R>(spec: ActorSpec<R>, info: ActorInfo) -> bool {
    &&& info.actor_id == spec.actor_id
    &&& info.job_id == spec.job_id
    &&& info.class_name == spec.class_name
    &&& info.state == ActorState::Pending
    &&& info.node_id@ == Seq::new(16, |i: int| 0u8)
    &&& info.num_restarts == 0
}

/// The actors of `s` that belong to `job` (all of them for `None`), in order.
pub open spec fn actors_of_job(s: Seq<ActorInfo>, job: Option<Seq<u8>>) -> Seq<ActorInfo> {
    match job {
        Some(j) => s.filter(|a: ActorInfo| a.job_id@ == j),
        None => s,
    }
}

/// The debug form of an actor or job id, as it appears in error messages.
pub open spec fn id_text(kind: Seq<char>, id: Seq<u8>) -> Seq<char> {
    kind + "("@ + hex_text(id.subrange(0, 4)) + ")"@
}

/// In-memory GCS store.
pub struct InMemoryGcsStore<R> {
    nodes: Table<NodeId, NodeInfo<R>>,
    actors: Table<ActorId, ActorInfo>,
    jobs: Table<JobId, JobInfo>,
    resource_usage: Table<NodeId, ResourceUsageInfo<R>>,
}

impl<R> InMemoryGcsStore<R> {
    /// Registered nodes by id.
    pub closed spec fn node_map(&self) -> Map<Seq<u8>, NodeInfo<R>> {
        self.nodes@
    }

    /// Registered nodes in listing order.
    pub closed spec fn node_list(&self) -> Seq<NodeInfo<R>> {
        self.nodes.val_seq()
    }

    /// Registered actors by id.
    pub closed spec fn actor_map(&self) -> Map<Seq<u8>, ActorInfo> {
        self.actors@
    }

    /// Registered actors in listing order.
    pub closed spec fn actor_list(&self) -> Seq<ActorInfo> {
        self.actors.val_seq()
    }

    /// Registered jobs by id.
    pub closed spec fn job_map(&self) -> Map<Seq<u8>, JobInfo> {
        self.jobs@
    }

    /// Registered jobs in listing order.
    pub closed spec fn job_list(&self) -> Seq<JobInfo> {
        self.jobs.val_seq()
    }

    /// Latest resource-usage report by node id.
    pub closed spec fn usage_map(&self) -> Map<Seq<u8>, ResourceUsageInfo<R>> {
        self.resource_usage@
    }

    /// Latest resource-usage reports in listing order.
    pub closed spec fn usage_list(&self) -> Seq<ResourceUsageInfo<R>> {
        self.resource_usage.val_seq()
    }

    /// Every table has unique keys, and each listing holds exactly the values
    /// of its map.
    pub closed spec fn wf(&self) -> bool {
        &&& self.nodes.wf()
        &&& self.actors.wf()
        &&& self.jobs.wf()
        &&& self.resource_usage.wf()
    }

    /// Each listing holds exactly the records of its table, one per key.
    pub proof fn lemma_listings(&self)
        requires
            self.wf(),
        ensures
            lists_values(self.node_map(), self.node_list()),
            lists_values(self.actor_map(), self.actor_list()),
            lists_values(self.job_map(), self.job_list()),
            lists_values(self.usage_map(), self.usage_list()),
    {
        self.nodes.lemma_listing();
        self.actors.lemma_listing();
        self.jobs.lemma_listing();
        self.resource_usage.lemma_listing();
    }

    pub fn new() -> (s: Self)
        ensures
            s.wf(),
            s.node_map() == Map::<Seq<u8>, NodeInfo<R>>::empty(),
            s.actor_map() == Map::<Seq<u8>, ActorInfo>::empty(),
            s.job_map() == Map::<Seq<u8>, JobInfo>::empty(),
            s.usage_map() == Map::<Seq<u8>, ResourceUsageInfo<R>>::empty(),
            s.node_list().len() == 0,
            s.actor_list().len() == 0,
            s.job_list().len() == 0,
            s.usage_list().len() == 0,
    {
        InMemoryGcsStore {
            nodes: Table::new(),
            actors: Table::new(),
            jobs: Table::new(),
            resource_usage: Table::new(),
        }
    }

    // ── Node operations ──

    /// Records `node_info` under its node id, replacing any earlier record.
    pub fn register_node(&mut self, node_info: NodeInfo<R>) -> (r: RayResult<()>)
        requires
            old(self).wf(),
        ensures
            final(self).wf(),
            r is Ok,
            final(self).node_map() == old(self).node_map().insert(node_info.node_id@, node_info),
            final(self).actor_map() == old(self).actor_map(),
            final(self).job_map() == old(self).job_map(),
            final(self).usage_map() == old(self).usage_map(),
    {
        let node_id = node_info.node_id.clone();
        self.nodes.insert(node_id, node_info);
        Ok(())
    }

    /// Forgets a node; an unknown id is not an error.
    pub fn unregister_node(&mut self, node_id: &NodeId) -> (r: RayResult<()>)
        requires
            old(self).wf(),
        ensures
            final(self).wf(),
            r is Ok,
            final(self).node_map() == old(self).node_map().remove(node_id@),
            final(self).actor_map() == old(self).actor_map(),
            final(self).job_map() == old(self).job_map(),
            final(self).usage_map() == old(self).usage_map(),
    {
        let _ = self.nodes.remove(node_id);
        Ok(())
    }

    /// All registered nodes.
    pub fn get_all_nodes(&self) -> (r: RayResult<&Vec<NodeInfo<R>>>)
        requires
            self.wf(),
        ensures
            r matches Ok(v) && v@ == self.node_list(),
    {
        Ok(self.nodes.values())
    }

    // ── Actor operations ──

    /// Records a pending actor for `actor_spec` (replacing any earlier record
    /// with the same id) and returns its id.
    pub fn register_actor(&mut self, actor_spec: ActorSpec<R>) -> (r: RayResult<ActorId>)
        requires
            old(self).wf(),
        ensures
            final(self).wf(),
            r matches Ok(id) && id == actor_spec.actor_id,
            final(self).actor_map().dom() == old(self).actor_map().dom().insert(actor_spec.actor_id@),
            final(self).actor_map() == old(self).actor_map().insert(
                actor_spec.actor_id@,
                final(self).actor_map()[actor_spec.actor_id@],
            ),
            registered_actor(actor_spec, final(self).actor_map()[actor_spec.actor_id@]),
            final(self).node_map() == old(self).node_map(),
            final(self).job_map() == old(self).job_map(),
            final(self).usage_map() == old(self).usage_map(),
    {
        let actor_id = actor_spec.actor_id.clone();
        let info = ActorInfo {
            actor_id: actor_spec.actor_id.clone(),
            job_id: actor_spec.job_id,
            class_name: actor_spec.class_name,
            state: ActorState::Pending,
            node_id: NodeId::default(),
            num_restarts: 0,
        };
        let key = actor_spec.actor_id;
        self.actors.insert(key, info);
        Ok(actor_id)
    }

    /// A copy of the actor record for `actor_id`, if any.
    pub fn get_actor(&self, actor_id: &ActorId) -> (r: RayResult<Option<ActorInfo>>)
        requires
            self.wf(),
        ensures
            r matches Ok(o) && (match o {
                Some(a) => self.actor_map().contains_key(actor_id@) && a == self.actor_map()[actor_id@],
                None => !self.actor_map().contains_key(actor_id@),
            }),
    {
        match self.actors.get(actor_id) {
            Some(a) => Ok(Some(a.clone())),
            None => Ok(None),
        }
    }

    /// Copies of the actor records of one job (of all jobs for `None`), in
    /// listing order.
    pub fn get_all_actors(&self, job_id: Option<&JobId>) -> (r: RayResult<Vec<ActorInfo>>)
        requires
            self.wf(),
        ensures
            r matches Ok(v) && v@ == actors_of_job(
                self.actor_list(),
                match job_id {
                    Some(j) => Some(j@),
                    None => None,
                },
            ),
    {
        let all = self.actors.values();
        let ghost s = all@;
        let ghost job = match job_id {
            Some(j) => Some(j@),
            None => None::<Seq<u8>>,
        };
        let mut out: Vec<ActorInfo> = Vec::new();
        let mut i: usize = 0;
        while i < all.len()
            invariant
                s == all@,
                i <= s.len(),
                job == match job_id {
                    Some(j) => Some(j@),
                    None => None::<Seq<u8>>,
                },
                out@ == actors_of_job(s.subrange(0, i as int), job),
            decreases s.len() - i,
        {
            let a = &all[i];
            let keep = match job_id {
                Some(j) => a.job_id == *j,
                None => true,
            };
            if keep {
                out.push(a.clone());
            }
            proof {
                let sub = s.subrange(0, i as int + 1);
                assert(sub.drop_last() =~= s.subrange(0, i as int));
                assert(sub.last() == s[i as int]);
                reveal(Seq::filter);
            }
            i = i + 1;
        }
        proof {
            assert(s.subrange(0, s.len() as int) =~= s);
        }
        Ok(out)
    }

    /// Marks an actor dead; `ActorNotFound` with the id's debug form if it
    /// is unknown.
    pub fn kill_actor(&mut self, actor_id: &ActorId) -> (r: RayResult<()>)
        requires
            old(self).wf(),
        ensures
            final(self).wf(),
            old(self).actor_map().contains_key(actor_id@) ==> r is Ok && final(self).actor_map()
                == old(self).actor_map().insert(
                actor_id@,
                ActorInfo { state: ActorState::Dead, ..old(self).actor_map()[actor_id@] },
            ),
            !old(self).actor_map().contains_key(actor_id@) ==> (r matches Err(RayError::ActorNotFound(m))
                && m@ == id_text("ActorId"@, actor_id@)) && final(self).actor_map() == old(self).actor_map(),
            final(self).node_map() == old(self).node_map(),
            final(self).job_map() == old(self).job_map(),
            final(self).usage_map() == old(self).usage_map(),
    {
        match self.actors.find(actor_id) {
            Some(i) => {
                let mut a = self.actors.val_at(i).clone();
                a.state = ActorState::Dead;
                let _ = self.actors.replace_at(i, a);
                Ok(())
            },
            None => {
                proof {
                    reveal_strlit("ActorId");
                    reveal_strlit("(");
                    reveal_strlit(")");
                    reveal_strlit("ActorId(");
                    assert("ActorId("@ =~= "ActorId"@ + "("@);
                }
                Err(RayError::ActorNotFound(actor_id.debug_string()))
            },
        }
    }

    // ── Job operations ──

    /// Records `job_info` under its job id, replacing any earlier record.
    pub fn add_job(&mut self, job_info: JobInfo) -> (r: RayResult<()>)
        requires
            old(self).wf(),
        ensures
            final(self).wf(),
            r is Ok,
            final(self).job_map() == old(self).job_map().insert(job_info.job_id@, job_info),
            final(self).node_map() == old(self).node_map(),
            final(self).actor_map() == old(self).actor_map(),
            final(self).usage_map() == old(self).usage_map(),
    {
        let job_id = job_info.job_id.clone();
        self.jobs.insert(job_id, job_info);
        Ok(())
    }

    /// Marks a job dead with the current wall-clock time (milliseconds since
    /// the Unix epoch) as its end time.
    pub fn mark_job_finished(&mut self, job_id: &JobId) -> (r: RayResult<()>)
        requires
            old(self).wf(),
        ensures
            final(self).wf(),
            old(self).job_map().contains_key(job_id@) ==> r is Ok && final(self).job_map()
                == old(self).job_map().insert(
                job_id@,
                JobInfo {
                    is_dead: true,
                    end_time_ms: final(self).job_map()[job_id@].end_time_ms,
                    ..old(self).job_map()[job_id@]
                },
            ),
            !old(self).job_map().contains_key(job_id@) ==> (r matches Err(RayError::Internal(m)) && m@
                == job_not_found_text(job_id@)) && final(self).job_map() == old(self).job_map(),
            final(self).node_map() == old(self).node_map(),
            final(self).actor_map() == old(self).actor_map(),
            final(self).usage_map() == old(self).usage_map(),
    {
        let now = unix_time_ms();
        self.mark_job_finished_at(job_id, now)
    }

    /// Marks a job dead with end time `now_ms`; `Internal("Job <id> not
    /// found")` if it is unknown.
    pub fn mark_job_finished_at(&mut self, job_id: &JobId, now_ms: i64) -> (r: RayResult<()>)
        requires
            old(self).wf(),
        ensures
            final(self).wf(),
            old(self).job_map().contains_key(job_id@) ==> r is Ok && final(self).job_map()
                == old(self).job_map().insert(
                job_id@,
                JobInfo { is_dead: true, end_time_ms: now_ms, ..old(self).job_map()[job_id@] },
            ),
            !old(self).job_map().contains_key(job_id@) ==> (r matches Err(RayError::Internal(m)) && m@
                == job_not_found_text(job_id@)) && final(self).job_map() == old(self).job_map(),
            final(self).node_map() == old(self).node_map(),
            final(self).actor_map() == old(self).actor_map(),
            final(self).usage_map() == old(self).usage_map(),
    {
        match self.jobs.find(job_id) {
            Some(i) => {
                let ghost ks = self.jobs.key_seq();
                let ghost vs = self.jobs.val_seq();
                proof {
                    lemma_map_of_at(ks, vs, i as int);
                }
                let j = self.jobs.val_at_mut(i);
                j.is_dead = true;
                j.end_time_ms = now_ms;
                proof {
                    let vs1 = self.jobs.val_seq();
                    crate::table::lemma_map_of_update(ks, vs, i as int, vs1[i as int]);
                    assert(vs1 == vs.update(i as int, vs1[i as int]));
                }
                Ok(())
            },
            None => {
                let mut m = String::from_str("Job ");
                let t = job_id.debug_string();
                m.append(t.as_str());
                m.append(" not found");
                proof {
                    reveal_strlit("Job ");
                    reveal_strlit(" not found");
                }
                Err(RayError::Internal(m))
            },
        }
    }

    /// All registered jobs.
    pub fn get_all_jobs(&self) -> (r: RayResult<&Vec<JobInfo>>)
        requires
            self.wf(),
        ensures
            r matches Ok(v) && v@ == self.job_list(),
    {
        Ok(self.jobs.values())
    }

    // ── Resource usage operations ──

    /// Records `usage` as the latest report of its node.
    pub fn report_resource_usage(&mut self, usage: ResourceUsageInfo<R>) -> (r: RayResult<()>)
        requires
            old(self).wf(),
        ensures
            final(self).wf(),
            r is Ok,
            final(self).usage_map() == old(self).usage_map().insert(usage.node_id@, usage),
            final(self).node_map() == old(self).node_map(),
            final(self).actor_map() == old(self).actor_map(),
            final(self).job_map() == old(self).job_map(),
    {
        let node_id = usage.node_id.clone();
        self.resource_usage.insert(node_id, usage);
        Ok(())
    }

    /// The latest report of every node.
    pub fn get_all_resource_usage(&self) -> (r: RayResult<&Vec<ResourceUsageInfo<R>>>)
        requires
            self.wf(),
        ensures
            r matches Ok(v) && v@ == self.usage_list(),
    {
        Ok(self.resource_usage.values())
    }
}

/// The text of the error for an unknown job: "Job JobId(<hex>) not found".
pub open spec fn job_not_found_text(id: Seq<u8>) -> Seq<char> {
    "Job "@ + "JobId("@ + hex_text(id.subrange(0, 4)) + ")"@ + " not found"@
}

} // verus!
