//! Task execution: the echo executor, and the registry that finds a task's
//! function by name.

use vstd::prelude::*;
use vstd::slice::slice_to_vec;
use vstd::string::*;
use crate::error::{RayError, RayResult};
use crate::table::Table;
use crate::types::TaskSpec;
use crate::id::ObjectId;

verus! {

/// A simple executor: the task's function payload is its result.
///
/// Useful for testing the full pipeline without real function dispatch.
pub struct LocalExecutor;

impl LocalExecutor {
    /// Executes a task by returning a copy of its payload.
    pub fn execute<R>(&self, task_spec: &TaskSpec<R>) -> (r: RayResult<Vec<u8>>)
        ensures
            r matches Ok(v) && v@ == task_spec.function_payload@,
    {
        Ok(slice_to_vec(task_spec.function_payload.as_slice()))
    }
}

/// What finishing a task stores: its result under its first return id,
/// when it succeeded and has a return id; nothing otherwise.
pub fn completed_output<R, E>(task_spec: &TaskSpec<R>, result: &Result<Vec<u8>, E>) -> (r: Option<(ObjectId, Vec<u8>)>)
    ensures
        match result {
            Ok(d) => if task_spec.return_ids@.len() > 0 {
                r matches Some((id, v)) && id == task_spec.return_ids@[0] && v@ == d@
            } else {
                r is None
            },
            Err(_) => r is None,
        },
{
    match result {
        Ok(d) => {
            if task_spec.return_ids.len() > 0 {
                Some((task_spec.return_ids[0].clone(), slice_to_vec(d.as_slice())))
            } else {
                None
            }
        },
        Err(_) => None,
    }
}

/// The text of the error for a task whose function is not registered.
pub open spec fn missing_function_text(name: Seq<char>) -> Seq<char> {
    "No function registered for '"@ + name + "'"@
}

/// The error a function registry reports for a name it does not hold.
pub fn missing_function_error(function_name: &str) -> (e: RayError)
    ensures
        e matches RayError::TaskFailed(m) && m@ == missing_function_text(function_name@),
{
    let mut m = String::from_str("No function registered for '");
    m.append(function_name);
    m.append("'");
    proof {
        reveal_strlit("No function registered for '");
        reveal_strlit("'");
    }
    RayError::TaskFailed(m)
}

/// Functions registered by name. The function values themselves (closures
/// in practice) are only stored and handed back.
pub struct FunctionRegistry<F> {
    fns: Table<String, F>,
}

impl<F> FunctionRegistry<F> {
    /// The registered functions by name.
    pub closed spec fn functions(&self) -> Map<Seq<char>, F> {
        self.fns@
    }

    pub closed spec fn wf(&self) -> bool {
        self.fns.wf()
    }

    /// An empty registry.
    pub fn new() -> (r: Self)
        ensures
            r.wf(),
            r.functions() == Map::<Seq<char>, F>::empty(),
    {
        FunctionRegistry { fns: Table::new() }
    }

    /// Register a function by name, replacing any function of that name.
    pub fn register_fn(&mut self, name: String, f: F)
        requires
            old(self).wf(),
        ensures
            final(self).wf(),
            final(self).functions() == old(self).functions().insert(name@, f),
    {
        self.fns.insert(name, f);
    }

    /// Unregister a function (an unknown name is ignored).
    pub fn unregister_fn(&mut self, name: &str)
        requires
            old(self).wf(),
        ensures
            final(self).wf(),
            final(self).functions() == old(self).functions().remove(name@),
    {
        let key = String::from_str(name);
        let _ = self.fns.remove(&key);
    }

    /// Check if a function is registered.
    pub fn has_fn(&self, name: &str) -> (b: bool)
        requires
            self.wf(),
        ensures
            b == self.functions().contains_key(name@),
    {
        let key = String::from_str(name);
        self.fns.contains_key(&key)
    }

    /// The function registered under `name`, or the `TaskFailed` error of a
    /// missing function.
    pub fn lookup(&self, name: &str) -> (r: RayResult<&F>)
        requires
            self.wf(),
        ensures
            self.functions().contains_key(name@) ==> (r matches Ok(f) && *f == self.functions()[name@]),
            !self.functions().contains_key(name@) ==> (r matches Err(RayError::TaskFailed(m)) && m@
                == missing_function_text(name@)),
    {
        let key = String::from_str(name);
        match self.fns.get(&key) {
            Some(f) => Ok(f),
            None => Err(missing_function_error(name)),
        }
    }
}

} // verus!
