use std::collections::HashMap;

use ray_rust::error::RayError;
use ray_rust::gcs_store::InMemoryGcsStore;
use ray_rust::id::{ActorId, JobId, NodeId};
use ray_rust::types::{ActorSpec, ActorState, JobInfo, NodeInfo, ResourceUsageInfo};

/// `head` followed by zero bytes, `N` bytes in all.
fn lead<const N: usize>(head: &[u8]) -> [u8; N] {
    let mut b = [0u8; N];
    b[..head.len()].copy_from_slice(head);
    b
}

fn cpus(n: f64) -> HashMap<String, f64> {
    let mut m = HashMap::new();
    m.insert("CPU".to_string(), n);
    m
}

fn actor_spec(job: &JobId, class_name: &str) -> ActorSpec<HashMap<String, f64>> {
    ActorSpec {
        actor_id: ActorId::new(),
        job_id: job.clone(),
        class_name: class_name.to_string(),
        class_payload: vec![],
        constructor_args: vec![],
        required_resources: cpus(1.0),
        max_restarts: 0,
    }
}

#[test]
fn test_register_and_get_nodes() {
    let mut store = InMemoryGcsStore::new();
    let node = NodeInfo {
        node_id: NodeId::new(),
        address: "127.0.0.1".to_string(),
        port: 6379,
        total_resources: cpus(4.0),
        available_resources: cpus(4.0),
        is_alive: true,
    };
    store.register_node(node).unwrap();
    let nodes = store.get_all_nodes().unwrap();
    assert_eq!(nodes.len(), 1);
}

#[test]
fn unregister_node_removes_it() {
    let mut store = InMemoryGcsStore::new();
    let id = NodeId::new();
    let node = NodeInfo {
        node_id: id.clone(),
        address: "10.0.0.1".to_string(),
        port: 1,
        total_resources: cpus(1.0),
        available_resources: cpus(1.0),
        is_alive: true,
    };
    store.register_node(node.clone()).unwrap();
    // Registering the same node again replaces it.
    store.register_node(node).unwrap();
    assert_eq!(store.get_all_nodes().unwrap().len(), 1);
    store.unregister_node(&id).unwrap();
    assert_eq!(store.get_all_nodes().unwrap().len(), 0);
    // Unknown nodes are not an error.
    store.unregister_node(&id).unwrap();
}

#[test]
fn actors_register_as_pending_and_die_when_killed() {
    let mut store: InMemoryGcsStore<HashMap<String, f64>> = InMemoryGcsStore::new();
    let job = JobId::new();
    let spec = actor_spec(&job, "Counter");
    let id = store.register_actor(spec.clone()).unwrap();
    assert_eq!(id, spec.actor_id);
    let info = store.get_actor(&id).unwrap().unwrap();
    assert_eq!(info.state, ActorState::Pending);
    assert_eq!(info.class_name, "Counter");
    assert_eq!(info.node_id, NodeId::default());
    assert_eq!(info.num_restarts, 0);
    store.kill_actor(&id).unwrap();
    assert_eq!(store.get_actor(&id).unwrap().unwrap().state, ActorState::Dead);
}

#[test]
fn killing_unknown_actor_fails() {
    let mut store: InMemoryGcsStore<HashMap<String, f64>> = InMemoryGcsStore::new();
    let id = ActorId::from_slice(&lead::<16>(&[0xca, 0xfe, 0, 1]));
    assert!(store.get_actor(&id).unwrap().is_none());
    match store.kill_actor(&id) {
        Err(RayError::ActorNotFound(m)) => assert_eq!(m, "ActorId(cafe0001)"),
        other => panic!("unexpected {:?}", other),
    }
}

#[test]
fn actors_can_be_listed_per_job() {
    let mut store: InMemoryGcsStore<HashMap<String, f64>> = InMemoryGcsStore::new();
    let j1 = JobId::new();
    let j2 = JobId::new();
    store.register_actor(actor_spec(&j1, "A")).unwrap();
    store.register_actor(actor_spec(&j2, "B")).unwrap();
    store.register_actor(actor_spec(&j1, "C")).unwrap();
    let all = store.get_all_actors(None).unwrap();
    assert_eq!(all.len(), 3);
    let of_j1 = store.get_all_actors(Some(&j1)).unwrap();
    let names: Vec<String> = of_j1.iter().map(|a| a.class_name.clone()).collect();
    assert_eq!(names, vec!["A".to_string(), "C".to_string()]);
}

#[test]
fn test_gcs_job_management() {
    let mut store: InMemoryGcsStore<HashMap<String, f64>> = InMemoryGcsStore::new();
    let job_id = JobId::new();
    let job_info = JobInfo {
        job_id: job_id.clone(),
        driver_ip: "127.0.0.1".to_string(),
        start_time_ms: 1000,
        end_time_ms: 0,
        is_dead: false,
        config: HashMap::new(),
    };
    store.add_job(job_info).unwrap();
    let jobs = store.get_all_jobs().unwrap();
    assert_eq!(jobs.len(), 1);
    assert_eq!(jobs[0].job_id, job_id);
    assert!(!jobs[0].is_dead);
    store.mark_job_finished(&job_id).unwrap();
    let jobs = store.get_all_jobs().unwrap();
    assert_eq!(jobs.len(), 1);
    assert!(jobs[0].is_dead);
    assert!(jobs[0].end_time_ms > 0);
}

#[test]
fn finishing_a_job_at_a_given_time() {
    let mut store: InMemoryGcsStore<HashMap<String, f64>> = InMemoryGcsStore::new();
    let job_id = JobId::from_slice(&lead::<16>(&[0, 0, 0, 7]));
    match store.mark_job_finished_at(&job_id, 5) {
        Err(RayError::Internal(m)) => assert_eq!(m, "Job JobId(00000007) not found"),
        other => panic!("unexpected {:?}", other),
    }
    let mut config = HashMap::new();
    config.insert("k".to_string(), "v".to_string());
    store
        .add_job(JobInfo {
            job_id: job_id.clone(),
            driver_ip: "h".to_string(),
            start_time_ms: 1,
            end_time_ms: 0,
            is_dead: false,
            config,
        })
        .unwrap();
    store.mark_job_finished_at(&job_id, 1234).unwrap();
    let jobs = store.get_all_jobs().unwrap();
    assert_eq!(jobs[0].end_time_ms, 1234);
    assert!(jobs[0].is_dead);
    assert_eq!(jobs[0].start_time_ms, 1);
    assert_eq!(jobs[0].config.get("k").map(|s| s.as_str()), Some("v"));
}

#[test]
fn test_gcs_resource_usage() {
    let mut store = InMemoryGcsStore::new();
    let node_id = NodeId::new();
    let usage = ResourceUsageInfo {
        node_id: node_id.clone(),
        available: cpus(3.0),
        total: cpus(4.0),
        timestamp_ms: 12345,
    };
    store.report_resource_usage(usage).unwrap();
    let all_usage = store.get_all_resource_usage().unwrap();
    assert_eq!(all_usage.len(), 1);
    assert_eq!(all_usage[0].node_id, node_id);
    assert_eq!(all_usage[0].available.get("CPU"), Some(&3.0));
    assert_eq!(all_usage[0].total.get("CPU"), Some(&4.0));
}
