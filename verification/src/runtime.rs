//! Configuration of the single-process runtime and the task it builds for a
//! function call.

use vstd::prelude::*;
use crate::id::{JobId, ObjectId, TaskId, is_fresh_id_bytes};
use crate::types::TaskSpec;
use vstd::string::StringExecFns;

verus! {

/// Configuration for the local runtime.
#[derive(Debug)]
pub struct RuntimeConfig {
    /// Number of CPU cores available for scheduling.
    pub num_cpus: usize,
    /// Maximum number of concurrent workers.
    pub max_workers: usize,
    /// Maximum memory in bytes for the object store (0 = unlimited).
    pub object_store_memory: usize,
}

impl Clone for RuntimeConfig {
    fn clone(&self) -> (c: Self)
        ensures
            c == *self,
    {
        RuntimeConfig {
            num_cpus: self.num_cpus,
            max_workers: self.max_workers,
            object_store_memory: self.object_store_memory,
        }
    }
}

impl RuntimeConfig {
    /// The default configuration for a machine with `num_cpus` cores: two
    /// workers per core and an unlimited object store.
    pub fn for_cpus(num_cpus: usize) -> (c: Self)
        requires
            num_cpus * 2 <= usize::MAX,
        ensures
            c.num_cpus == num_cpus,
            c.max_workers == num_cpus * 2,
            c.object_store_memory == 0,
    {
        RuntimeConfig { num_cpus, max_workers: num_cpus * 2, object_store_memory: 0 }
    }
}

/// The task that calling `function_name` on `payload` submits: fresh task
/// and job ids, one fresh return object, no dependencies, no retries.
pub fn function_task<R>(function_name: &str, payload: Vec<u8>, required_resources: R) -> (t: TaskSpec<R>)
    ensures
        t.function_name@ == function_name@,
        t.function_payload@ == payload@,
        t.return_ids@.len() == 1,
        is_fresh_id_bytes(t.return_ids@[0]@),
        is_fresh_id_bytes(t.task_id@),
        is_fresh_id_bytes(t.job_id@),
        t.dependency_ids@.len() == 0,
        t.required_resources == required_resources,
        t.max_retries == 0,
{
    let return_id = ObjectId::new();
    let mut return_ids: Vec<ObjectId> = Vec::new();
    return_ids.push(return_id);
    TaskSpec {
        task_id: TaskId::new(),
        job_id: JobId::new(),
        function_name: String::from_str(function_name),
        function_payload: payload,
        return_ids,
        dependency_ids: Vec::new(),
        required_resources,
        max_retries: 0,
    }
}

} // verus!
