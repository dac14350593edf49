use ray_rust::id::{ActorId, JobId, NodeId, ObjectId, TaskId, WorkerId};
use ray_rust::text::{encode, i64_text, u64_text, usize_text};

#[test]
fn test_id_generation() {
    let id1 = TaskId::new();
    let id2 = TaskId::new();
    assert_ne!(id1, id2);
}

#[test]
fn test_id_from_bytes() {
    let bytes = [42u8; 16];
    let id = TaskId::from_bytes(bytes);
    assert_eq!(id.as_bytes(), &bytes);
}

#[test]
fn test_object_id_size() {
    let id = ObjectId::new();
    assert_eq!(id.as_bytes().len(), 28);
}

#[test]
fn fresh_ids_carry_uuid_version_bits() {
    let t = TaskId::new();
    let b = t.as_bytes();
    assert_eq!(b[6] / 16, 4);
    assert_eq!(b[8] / 64, 2);
    let o = ObjectId::new();
    let ob = o.as_bytes();
    assert_eq!(ob[6] / 16, 4);
    assert!(ob[16..].iter().all(|x| *x == 0));
    // Two fresh ids of every kind differ.
    assert_ne!(ActorId::new(), ActorId::new());
    assert_ne!(WorkerId::new(), WorkerId::new());
    assert_ne!(NodeId::new(), NodeId::new());
    assert_ne!(JobId::new(), JobId::new());
    assert_ne!(ObjectId::new(), ObjectId::new());
}

#[test]
fn from_slice_copies_a_slice_of_the_identifier_length() {
    let bytes: Vec<u8> = (1u8..=16).collect();
    let n = NodeId::from_slice(&bytes);
    assert_eq!(n.as_bytes().to_vec(), bytes);
    let long: Vec<u8> = (0u8..28).collect();
    let o = ObjectId::from_vec(&long);
    assert_eq!(o.to_vec(), long);
}

#[test]
fn vec_round_trip_gives_same_id() {
    let id = JobId::new();
    let back = JobId::from_vec(&id.to_vec());
    assert_eq!(back, id);
    assert_eq!(id.clone(), id);
}

#[test]
fn default_id_is_all_zero() {
    assert_eq!(TaskId::default().as_bytes(), &[0u8; 16]);
    assert_eq!(ObjectId::default().as_bytes(), &[0u8; 28]);
}

#[test]
fn display_and_debug_show_first_four_bytes() {
    let id = TaskId::from_bytes([0xab, 0x01, 0xff, 0x10, 9, 9, 9, 9, 9, 9, 9, 9, 9, 9, 9, 9]);
    assert_eq!(id.display_string(), "ab01ff10");
    assert_eq!(id.debug_string(), "TaskId(ab01ff10)");
    let mut b = [0u8; 28];
    b[..4].copy_from_slice(&[0, 1, 2, 3]);
    let o = ObjectId::from_slice(&b);
    assert_eq!(o.debug_string(), "ObjectId(00010203)");
}

#[test]
fn hex_encoding_is_two_lower_case_digits_per_byte() {
    assert_eq!(encode(&[]), "");
    assert_eq!(encode(&[0x00, 0x0f, 0xa0, 0xff]), "000fa0ff");
}

#[test]
fn decimal_rendering() {
    assert_eq!(u64_text(0), "0");
    assert_eq!(u64_text(1234567890), "1234567890");
    assert_eq!(u64_text(u64::MAX), u64::MAX.to_string());
    assert_eq!(usize_text(42), "42");
    assert_eq!(i64_text(-7), "-7");
    assert_eq!(i64_text(i64::MIN), i64::MIN.to_string());
    assert_eq!(i64_text(5000), "5000");
}
