//! Records exchanged between the runtime components: task and actor
//! specifications, node/actor/job/resource-usage information, and the task
//! and actor lifecycle states.
//!
//! The resource sets that tasks require and nodes offer are a type parameter
//! `R`: the records carry them, and the components in this crate never look
//! inside them.

use vstd::prelude::*;
use crate::id::{ActorId, JobId, NodeId, ObjectId, TaskId};

verus! {

/// Task execution status.
#[derive(Clone, Copy, PartialEq, Eq, Structural, Debug)]
pub enum TaskStatus {
    Pending,
    Scheduled,
    Running,
    Finished,
    Failed,
    Cancelled,
}

/// Actor lifecycle state.
#[derive(Clone, Copy, PartialEq, Eq, Structural, Debug)]
pub enum ActorState {
    Pending,
    Alive,
    Restarting,
    Dead,
}

/// Specification for a task to be executed.
#[derive(Debug, Clone)]
pub struct TaskSpec<R> {
    pub task_id: TaskId,
    pub job_id: JobId,
    pub function_name: String,
    pub function_payload: Vec<u8>,
    pub return_ids: Vec<ObjectId>,
    pub dependency_ids: Vec<ObjectId>,
    pub required_resources: R,
    pub max_retries: i32,
}

/// Specification for creating an actor.
#[derive(Debug, Clone)]
pub struct ActorSpec<R> {
    pub actor_id: ActorId,
    pub job_id: JobId,
    pub class_name: String,
    pub class_payload: Vec<u8>,
    pub constructor_args: Vec<u8>,
    pub required_resources: R,
    pub max_restarts: i32,
}

/// Node information stored in GCS.
#[derive(Debug, Clone)]
pub struct NodeInfo<R> {
    pub node_id: NodeId,
    pub address: String,
    pub port: i32,
    pub total_resources: R,
    pub available_resources: R,
    pub is_alive: bool,
}

/// Actor information stored in GCS.
#[derive(Debug)]
pub struct ActorInfo {
    pub actor_id: ActorId,
    pub job_id: JobId,
    pub class_name: String,
    pub state: ActorState,
    pub node_id: NodeId,
    pub num_restarts: i32,
}

impl Clone for ActorInfo {
    fn clone(&self) -> (a: Self)
        ensures
            a == *self,
    {
        ActorInfo {
            actor_id: self.actor_id.clone(),
            job_id: self.job_id.clone(),
            class_name: self.class_name.clone(),
            state: self.state,
            node_id: self.node_id.clone(),
            num_restarts: self.num_restarts,
        }
    }
}

/// Job information stored in GCS.
#[derive(Debug)]
pub struct JobInfo {
    pub job_id: JobId,
    pub driver_ip: String,
    pub start_time_ms: i64,
    pub end_time_ms: i64,
    pub is_dead: bool,
    pub config: std::collections::HashMap<String, String>,
}

/// Resource usage information for a node, stored in GCS.
#[derive(Debug, Clone)]
pub struct ResourceUsageInfo<R> {
    pub node_id: NodeId,
    pub available: R,
    pub total: R,
    pub timestamp_ms: i64,
}

} // verus!
