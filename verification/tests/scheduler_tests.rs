use ray_rust::error::RayError;
use ray_rust::global_scheduler::{GlobalScheduler, NodeView};
use ray_rust::id::{JobId, NodeId, TaskId};
use ray_rust::local_scheduler::SchedulerState;
use ray_rust::runtime::function_task;
use ray_rust::types::{TaskSpec, TaskStatus};

/// `head` followed by zero bytes, `N` bytes in all.
fn lead<const N: usize>(head: &[u8]) -> [u8; N] {
    let mut b = [0u8; N];
    b[..head.len()].copy_from_slice(head);
    b
}

fn task(id: &TaskId, cpu: f64) -> TaskSpec<f64> {
    TaskSpec {
        task_id: id.clone(),
        job_id: JobId::new(),
        function_name: "test_func".to_string(),
        function_payload: vec![],
        return_ids: vec![],
        dependency_ids: vec![],
        required_resources: cpu,
        max_retries: 0,
    }
}

#[test]
fn test_submit_and_status() {
    let mut state = SchedulerState::new();
    let task_id = TaskId::new();
    // Four CPUs are free; one is requested, so the request is granted.
    let granted = 1.0 <= 4.0;
    state.submit(task(&task_id, 1.0), granted);
    assert_eq!(state.status(&task_id).unwrap(), TaskStatus::Running);
}

#[test]
fn test_runtime_cancel_task() {
    let mut state = SchedulerState::new();
    let task_id = TaskId::new();
    // 100 CPUs requested of 1: not granted.
    state.submit(task(&task_id, 100.0), false);
    assert_eq!(state.status(&task_id).unwrap(), TaskStatus::Pending);
    assert_eq!(state.pending_tasks().len(), 1);
    state.cancel(&task_id);
    assert_eq!(state.status(&task_id).unwrap(), TaskStatus::Cancelled);
    assert_eq!(state.pending_tasks().len(), 0);
}

#[test]
fn unknown_task_status_is_an_error() {
    let state: SchedulerState<f64> = SchedulerState::new();
    let id = TaskId::from_slice(&lead::<16>(&[1, 2, 3, 4]));
    match state.status(&id) {
        Err(RayError::TaskNotFound(m)) => assert_eq!(m, "TaskId(01020304)"),
        other => panic!("unexpected {:?}", other),
    }
}

#[test]
fn grants_start_queued_tasks_in_order() {
    let mut state = SchedulerState::new();
    let a = TaskId::new();
    let b = TaskId::new();
    let c = TaskId::new();
    state.submit(task(&a, 2.0), false);
    state.submit(task(&b, 2.0), false);
    state.submit(task(&c, 2.0), false);
    let requests: Vec<f64> = state.pending_tasks().iter().map(|t| t.required_resources).collect();
    assert_eq!(requests, vec![2.0, 2.0, 2.0]);
    state.apply_grants(&[true, false, true]);
    assert_eq!(state.status(&a).unwrap(), TaskStatus::Running);
    assert_eq!(state.status(&b).unwrap(), TaskStatus::Pending);
    assert_eq!(state.status(&c).unwrap(), TaskStatus::Running);
    let left: Vec<TaskId> = state.pending_tasks().iter().map(|t| t.task_id.clone()).collect();
    assert_eq!(left, vec![b.clone()]);
    state.apply_grants(&[true]);
    assert_eq!(state.status(&b).unwrap(), TaskStatus::Running);
    assert!(state.pending_tasks().is_empty());
}

#[test]
fn cancel_of_unknown_task_changes_nothing() {
    let mut state: SchedulerState<f64> = SchedulerState::new();
    let a = TaskId::new();
    state.submit(task(&a, 1.0), false);
    state.cancel(&TaskId::new());
    assert_eq!(state.pending_tasks().len(), 1);
    assert_eq!(state.status(&a).unwrap(), TaskStatus::Pending);
}

fn node(cpu: f64, alive: bool) -> NodeView<f64> {
    NodeView {
        node_id: NodeId::new(),
        address: "127.0.0.1".to_string(),
        port: 6379,
        available: cpu,
        total: cpu,
        is_alive: alive,
    }
}

#[test]
fn test_schedule_task() {
    let mut scheduler = GlobalScheduler::new();
    scheduler.update_node(node(4.0, true));
    scheduler.update_node(node(8.0, true));
    let candidates = scheduler.schedule_candidates().unwrap();
    assert_eq!(candidates.len(), 2);
    let chosen = candidates[0].node_id.clone();
    assert!(scheduler.get_all_nodes().iter().any(|n| n.node_id == chosen));
}

#[test]
fn test_no_alive_nodes() {
    let scheduler: GlobalScheduler<f64> = GlobalScheduler::new();
    match scheduler.schedule_candidates() {
        Err(RayError::SchedulingFailed(m)) => assert_eq!(m, "No alive nodes in cluster"),
        other => panic!("unexpected {:?}", other.map(|v| v.len())),
    }
}

#[test]
fn dead_nodes_are_not_candidates() {
    let mut scheduler = GlobalScheduler::new();
    let dead = node(16.0, false);
    let dead_id = dead.node_id.clone();
    scheduler.update_node(dead);
    assert_eq!(scheduler.alive_node_count(), 0);
    assert!(scheduler.schedule_candidates().is_err());
    let live = node(2.0, true);
    scheduler.update_node(live);
    assert_eq!(scheduler.alive_node_count(), 1);
    assert_eq!(scheduler.schedule_candidates().unwrap().len(), 1);
    scheduler.remove_node(&dead_id);
    assert_eq!(scheduler.get_all_nodes().len(), 1);
}

#[test]
fn function_task_has_one_fresh_return_id() {
    let t = function_task("double", vec![1, 2, 3], 1.0f64);
    assert_eq!(t.function_name, "double");
    assert_eq!(t.function_payload, vec![1, 2, 3]);
    assert_eq!(t.return_ids.len(), 1);
    assert!(t.dependency_ids.is_empty());
    assert_eq!(t.max_retries, 0);
    assert_eq!(t.required_resources, 1.0);
    assert_eq!(t.return_ids[0].as_bytes()[6] / 16, 4);
}

#[test]
fn test_runtime_task_status() {
    let mut state = SchedulerState::new();
    let task_id = TaskId::new();
    let mut spec = task(&task_id, 1.0);
    spec.function_name = "noop".to_string();
    // One CPU requested of two: granted.
    state.submit(spec, 1.0 <= 2.0);
    assert_eq!(state.status(&task_id).unwrap(), TaskStatus::Running);
}

#[test]
fn test_local_task_cancel() {
    let mut state = SchedulerState::new();
    let task_id = TaskId::new();
    let mut spec = task(&task_id, 100.0);
    spec.function_name = "slow_fn".to_string();
    // 100 CPUs requested of 4: not granted, the task waits.
    state.submit(spec, 100.0 <= 4.0);
    state.apply_grants(&[false]);
    assert_eq!(state.status(&task_id).unwrap(), TaskStatus::Pending);
    state.cancel(&task_id);
    state.apply_grants(&[]);
    assert_eq!(state.status(&task_id).unwrap(), TaskStatus::Cancelled);
}

#[test]
fn test_task_status_flow() {
    let mut state = SchedulerState::new();
    let task_id = TaskId::new();
    let mut spec = task(&task_id, 1.0);
    spec.function_name = "quick".to_string();
    spec.function_payload = vec![99];
    state.submit(spec, 1.0 <= 4.0);
    let status = state.status(&task_id).unwrap();
    assert!(status == TaskStatus::Running || status == TaskStatus::Finished);
}
