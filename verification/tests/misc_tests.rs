use ray_rust::error::RayError;
use ray_rust::executor::{missing_function_error, FunctionRegistry, LocalExecutor};
use ray_rust::id::{JobId, ObjectId, TaskId};
use ray_rust::runtime::RuntimeConfig;
use ray_rust::serialize::write_into;
use ray_rust::shared_memory::{ShmPool, ShmRegion};
use ray_rust::types::TaskSpec;

fn make_task(name: &str, payload: Vec<u8>) -> TaskSpec<f64> {
    TaskSpec {
        task_id: TaskId::new(),
        job_id: JobId::new(),
        function_name: name.to_string(),
        function_payload: payload,
        return_ids: vec![ObjectId::new()],
        dependency_ids: vec![],
        required_resources: 1.0,
        max_retries: 0,
    }
}

#[test]
fn test_local_executor_echo() {
    let executor = LocalExecutor;
    let task = make_task("echo", vec![1, 2, 3]);
    let result = executor.execute(&task).unwrap();
    assert_eq!(result, vec![1, 2, 3]);
}

#[test]
fn test_function_registry_missing_fn() {
    let task = make_task("nonexistent", vec![]);
    match missing_function_error(&task.function_name) {
        RayError::TaskFailed(m) => assert_eq!(m, "No function registered for 'nonexistent'"),
        other => panic!("unexpected {:?}", other),
    }
}

#[test]
fn write_into_copies_or_reports() {
    let mut buf = vec![0u8; 6];
    write_into(&mut buf, 2, &[7, 8, 9]).unwrap();
    assert_eq!(buf, vec![0, 0, 7, 8, 9, 0]);
    match write_into(&mut buf, 4, &[1, 2, 3]) {
        Err(RayError::SharedMemoryError(m)) => {
            assert_eq!(m, "write out of bounds: offset 4 + len 3 > buffer 6")
        }
        other => panic!("unexpected {:?}", other),
    }
    assert_eq!(buf, vec![0, 0, 7, 8, 9, 0]);
    write_into(&mut buf, 6, &[]).unwrap();
}

#[test]
fn runtime_config_for_cpus() {
    let c = RuntimeConfig::for_cpus(4);
    assert_eq!(c.num_cpus, 4);
    assert_eq!(c.max_workers, 8);
    assert_eq!(c.object_store_memory, 0);
}

#[test]
fn zero_sized_regions_are_refused() {
    match ShmRegion::create("ray_test_zero_region", 0) {
        Err(RayError::SharedMemoryError(m)) => assert_eq!(m, "create failed: MapSizeZero"),
        Err(other) => panic!("unexpected {:?}", other),
        Ok(_) => panic!("a zero-sized region was created"),
    }
    let mut pool = ShmPool::new("ray_test_pool");
    match pool.allocate(0) {
        Err(RayError::SharedMemoryError(m)) => assert_eq!(m, "create failed: MapSizeZero"),
        other => panic!("unexpected {:?}", other.map(|_| ())),
    }
    // The number is used up even though the region was refused.
    assert!(pool.get("ray_test_pool_0").is_none());
    pool.release("ray_test_pool_0");
}

#[test]
fn registry_finds_registered_functions_by_name() {
    let mut reg: FunctionRegistry<fn(&[u8]) -> Vec<u8>> = FunctionRegistry::new();
    fn double(p: &[u8]) -> Vec<u8> {
        p.iter().flat_map(|b| [*b, *b]).collect()
    }
    assert!(!reg.has_fn("double"));
    reg.register_fn("double".to_string(), double);
    assert!(reg.has_fn("double"));
    let f = reg.lookup("double").unwrap();
    assert_eq!(f(&[1, 2, 3]), vec![1, 1, 2, 2, 3, 3]);
    reg.unregister_fn("double");
    match reg.lookup("double") {
        Err(RayError::TaskFailed(m)) => assert_eq!(m, "No function registered for 'double'"),
        Err(other) => panic!("unexpected {:?}", other),
        Ok(_) => panic!("function still registered"),
    }
}

type BytesFn = Box<dyn Fn(&[u8]) -> Result<Vec<u8>, RayError>>;

#[test]
fn test_function_registry_executor() {
    let mut registry: FunctionRegistry<BytesFn> = FunctionRegistry::new();
    registry.register_fn(
        "double".to_string(),
        Box::new(|payload: &[u8]| -> Result<Vec<u8>, RayError> {
            Ok(payload.iter().flat_map(|b| [*b, *b]).collect())
        }),
    );
    let task = make_task("double", vec![1, 2, 3]);
    let f = registry.lookup(&task.function_name).unwrap();
    let result = f(&task.function_payload).unwrap();
    assert_eq!(result, vec![1, 1, 2, 2, 3, 3]);
}


#[test]
fn completed_output_stores_only_successful_results() {
    let task = make_task("f", vec![]);
    let ok: Result<Vec<u8>, RayError> = Ok(vec![7, 8]);
    let (id, data) = ray_rust::executor::completed_output(&task, &ok).unwrap();
    assert_eq!(id, task.return_ids[0]);
    assert_eq!(data, vec![7, 8]);
    let failed: Result<Vec<u8>, RayError> = Err(RayError::TaskFailed("Intentional failure".to_string()));
    assert!(ray_rust::executor::completed_output(&task, &failed).is_none());
    let mut no_return = make_task("f", vec![]);
    no_return.return_ids.clear();
    assert!(ray_rust::executor::completed_output(&no_return, &ok).is_none());
}
