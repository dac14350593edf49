use ray_rust::error::RayError;
use ray_rust::id::ObjectId;
use ray_rust::object_store::{spill_file_name, spill_path, split_ready, InMemoryObjectStore};

/// `head` followed by zero bytes, `N` bytes in all.
fn lead<const N: usize>(head: &[u8]) -> [u8; N] {
    let mut b = [0u8; N];
    b[..head.len()].copy_from_slice(head);
    b
}

fn get_now(store: &InMemoryObjectStore, id: &ObjectId) -> Result<Vec<u8>, RayError> {
    store.poll_get(id, 1000, true).unwrap()
}

#[test]
fn test_put_and_get() {
    let mut store = InMemoryObjectStore::new(0);
    let id = ObjectId::new();
    let data = vec![1, 2, 3, 4, 5];
    store.put(id.clone(), data.clone()).unwrap();
    let result = store.poll_get(&id, 1000, false).unwrap().unwrap();
    assert_eq!(result, data);
}

#[test]
fn test_contains() {
    let mut store = InMemoryObjectStore::new(0);
    let id = ObjectId::new();
    assert!(!store.contains(&id));
    store.put(id.clone(), vec![42]).unwrap();
    assert!(store.contains(&id));
}

#[test]
fn test_delete() {
    let mut store = InMemoryObjectStore::new(0);
    let id = ObjectId::new();
    store.put(id.clone(), vec![1]).unwrap();
    store.delete(&id).unwrap();
    assert!(!store.contains(&id));
}

#[test]
fn test_reference_counting() {
    let mut store = InMemoryObjectStore::new(0);
    let id = ObjectId::new();
    store.put(id.clone(), vec![1, 2]).unwrap();
    assert_eq!(store.get_entry(&id).unwrap().ref_count(), 1);
    store.add_reference(&id);
    assert_eq!(store.get_entry(&id).unwrap().ref_count(), 2);
    assert!(!store.remove_reference(&id));
    assert_eq!(store.get_entry(&id).unwrap().ref_count(), 1);
    assert!(store.remove_reference(&id));
    assert!(store.get_entry(&id).is_none());
}

#[test]
fn test_spill_and_restore() {
    let rt = tokio::runtime::Runtime::new().unwrap();
    let mut store = InMemoryObjectStore::new(0);
    let id = ObjectId::new();
    let data = vec![10, 20, 30, 40];
    store.put(id.clone(), data.clone()).unwrap();
    let dir = "/tmp/ray_spill_test";
    // Spill: write the object's bytes to its spill file, then record it.
    let written = store.spill_data(&id).unwrap();
    let path = spill_path(dir, &id);
    rt.block_on(async {
        tokio::fs::create_dir_all(dir).await.unwrap();
        tokio::fs::write(&path, &written).await.unwrap();
    });
    let recorded = store.mark_spilled(&id, dir);
    assert_eq!(recorded, path);
    assert_eq!(path, format!("{}/{}", dir, spill_file_name(&id)));
    let entry = store.get_entry(&id).unwrap();
    assert!(entry.is_spilled);
    // Restore: read the file back from the recorded location.
    let location = store.spill_location(&id).unwrap();
    assert_eq!(location, path);
    let read = rt.block_on(async {
        let d = tokio::fs::read(&location).await.unwrap();
        tokio::fs::remove_file(&location).await.unwrap();
        d
    });
    store.mark_restored(&id, read);
    let entry = store.get_entry(&id).unwrap();
    assert!(!entry.is_spilled);
    assert_eq!(entry.data, data);
    assert!(entry.spill_url.is_none());
}

#[test]
fn spill_paths_join_directory_and_file_name() {
    let id = ObjectId::from_slice(&[0xab; 28]);
    let name = "ab".repeat(28) + ".bin";
    assert_eq!(spill_path("/tmp/spill", &id), format!("/tmp/spill/{}", name));
    assert_eq!(spill_path("/tmp/spill/", &id), format!("/tmp/spill/{}", name));
    assert_eq!(spill_path("", &id), name);
}

#[test]
fn get_times_out_only_after_deadline() {
    let store = InMemoryObjectStore::new(0);
    let id = ObjectId::from_slice(&lead::<28>(&[0xde, 0xad, 0xbe, 0xef]));
    assert!(store.poll_get(&id, 200, false).is_none());
    match store.poll_get(&id, 200, true) {
        Some(Err(RayError::Timeout(m))) => {
            assert_eq!(m, "Object ObjectId(deadbeef) not available after 200ms")
        }
        other => panic!("unexpected {:?}", other),
    }
}

#[test]
fn wait_reports_flags_when_enough_are_ready() {
    let mut store = InMemoryObjectStore::new(0);
    let a = ObjectId::new();
    let b = ObjectId::new();
    store.put(a.clone(), vec![1]).unwrap();
    let ids = vec![a.clone(), b.clone()];
    assert_eq!(store.poll_wait(&ids, 1, false), Some(vec![true, false]));
    assert_eq!(store.poll_wait(&ids, 2, false), None);
    assert_eq!(store.poll_wait(&ids, 2, true), Some(vec![true, false]));
    store.put(b.clone(), vec![2]).unwrap();
    assert_eq!(store.poll_wait(&ids, 2, false), Some(vec![true, true]));
}

#[test]
fn total_size_and_count() {
    let mut store = InMemoryObjectStore::new(0);
    assert_eq!(store.total_size(), 0);
    let a = ObjectId::new();
    store.put(a.clone(), vec![0; 10]).unwrap();
    store.put(ObjectId::new(), vec![0; 5]).unwrap();
    assert_eq!(store.total_size(), 15);
    assert_eq!(store.object_count(), 2);
    // Replacing an object counts only the new data.
    store.put(a, vec![0; 3]).unwrap();
    assert_eq!(store.total_size(), 8);
    assert_eq!(store.object_count(), 2);
}

#[test]
fn eviction_removes_only_unreferenced_objects() {
    let mut store = InMemoryObjectStore::new(0);
    let a = ObjectId::new();
    let b = ObjectId::new();
    store.put(a.clone(), vec![1]).unwrap();
    store.put(b.clone(), vec![2]).unwrap();
    assert_eq!(store.evict_zero_ref_objects(), 0);
    // A second evict finds nothing more either.
    assert_eq!(store.evict_zero_ref_objects(), 0);
    assert!(store.contains(&a) && store.contains(&b));
}

#[test]
fn full_store_reports_sizes() {
    let mut store = InMemoryObjectStore::new(10);
    store.put(ObjectId::new(), vec![0; 8]).unwrap();
    match store.put(ObjectId::new(), vec![0; 5]) {
        Err(RayError::InsufficientResources(m)) => {
            assert_eq!(m, "Object store full: 8 + 5 > 10 bytes")
        }
        other => panic!("unexpected {:?}", other),
    }
    // The store stays within its budget.
    assert!(store.total_size() <= 10);
    store.put(ObjectId::new(), vec![0; 2]).unwrap();
    assert_eq!(store.total_size(), 10);
}

#[test]
fn missing_objects_are_reported_with_their_id() {
    let mut store = InMemoryObjectStore::new(0);
    let id = ObjectId::from_slice(&lead::<28>(&[1, 2, 3, 4]));
    match store.spill_data(&id) {
        Err(RayError::ObjectNotFound(m)) => assert_eq!(m, "ObjectId(01020304)"),
        other => panic!("unexpected {:?}", other),
    }
    store.put(id.clone(), vec![5]).unwrap();
    match store.spill_location(&id) {
        Err(RayError::ObjectNotFound(m)) => assert_eq!(m, "ObjectId(01020304) not spilled"),
        other => panic!("unexpected {:?}", other),
    }
    assert_eq!(get_now(&store, &id).unwrap(), vec![5]);
}

#[test]
fn spill_file_name_is_full_hex_id() {
    let id = ObjectId::from_slice(&lead::<28>(&[0xff]));
    let expected = format!("ff{}.bin", "00".repeat(27));
    assert_eq!(spill_file_name(&id), expected);
}

#[test]
fn add_then_remove_reference_restores_count() {
    let mut store = InMemoryObjectStore::new(0);
    let id = ObjectId::new();
    store.put(id.clone(), vec![9]).unwrap();
    store.add_reference(&id);
    assert!(!store.remove_reference(&id));
    assert_eq!(store.get_entry(&id).unwrap().ref_count(), 1);
    assert_eq!(store.get_entry(&id).unwrap().data, vec![9]);
    // Unknown ids are ignored.
    let other = ObjectId::new();
    store.add_reference(&other);
    assert!(!store.remove_reference(&other));
}

#[test]
fn split_ready_pairs_items_with_flags() {
    let (ready, not_ready) = split_ready(vec!["a", "b", "c", "d"], &[true, false, true]);
    assert_eq!(ready, vec!["a", "c"]);
    assert_eq!(not_ready, vec!["b"]);
    let (ready, not_ready) = split_ready(vec![1, 2], &[false, true, true]);
    assert_eq!(ready, vec![2]);
    assert_eq!(not_ready, vec![1]);
    let (ready, not_ready) = split_ready(Vec::<u8>::new(), &[]);
    assert!(ready.is_empty() && not_ready.is_empty());
}

/// What a runtime's `put_object` does: store the data under a fresh id.
fn put_object(store: &mut InMemoryObjectStore, data: Vec<u8>) -> ObjectId {
    let id = ObjectId::new();
    store.put(id.clone(), data).unwrap();
    id
}

#[test]
fn test_runtime_put_and_get() {
    let mut store = InMemoryObjectStore::new(0);
    let data = vec![1, 2, 3, 4, 5];
    let obj_id = put_object(&mut store, data.clone());
    let result = store.poll_get(&obj_id, 1000, false).unwrap().unwrap();
    assert_eq!(result, data);
}

#[test]
fn test_local_put_get_object() {
    let mut store = InMemoryObjectStore::new(0);
    let data = vec![10, 20, 30, 40, 50];
    let obj_id = put_object(&mut store, data.clone());
    let result = store.poll_get(&obj_id, 1000, false).unwrap().unwrap();
    assert_eq!(result, data);
}

#[test]
fn test_object_store_contains() {
    let mut store = InMemoryObjectStore::new(0);
    let obj_id = ObjectId::new();
    assert!(!store.contains(&obj_id));
    put_object(&mut store, vec![42]);
    let id2 = put_object(&mut store, vec![1, 2]);
    assert!(store.contains(&id2));
}

#[test]
fn stores_used_through_their_operations_evict_nothing() {
    let mut store = InMemoryObjectStore::new(0);
    let a = put_object(&mut store, vec![1]);
    let b = put_object(&mut store, vec![2, 3]);
    store.add_reference(&a);
    store.remove_reference(&a);
    store.remove_reference(&b);
    assert_eq!(store.evict_zero_ref_objects(), 0);
    assert_eq!(store.object_count(), 1);
}
