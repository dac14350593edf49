//! Fixed-size identifiers of tasks, actors, workers, nodes, jobs and objects.
//!
//! Each identifier wraps a byte array; fresh identifiers come from a random
//! (version 4) UUID, copied into the first sixteen bytes.

use vstd::prelude::*;
use vstd::std_specs::cmp::PartialEqSpecImpl;
use vstd::string::*;
use crate::text::{encode, hex_text};
use crate::table::KeyEq;

verus! {

/// `s` copied into a buffer of `n` zero bytes: the first `min(len, n)`
/// bytes come from `s`, the rest stay zero.
pub open spec fn padded(s: Seq<u8>, n: nat) -> Seq<u8> {
    Seq::new(n, |i: int| if i < s.len() { s[i] } else { 0u8 })
}

/// Copying bytes into a buffer of their own length reproduces them, so
/// `from_vec(id.to_vec())` is `id` again.
pub proof fn law_padded_same_length(s: Seq<u8>, n: nat)
    requires
        s.len() == n,
    ensures
        padded(s, n) == s,
{
    assert(padded(s, n) =~= s);
}

/// What every freshly generated identifier satisfies: a version-4 UUID in the
/// first sixteen bytes (version nibble 4, variant bits 10), zeros after them.
pub open spec fn is_fresh_id_bytes(b: Seq<u8>) -> bool {
    &&& b.len() >= 16
    &&& b[6] / 16 == 4
    &&& b[8] / 64 == 2
    &&& forall|i: int| 16 <= i < b.len() ==> b[i] == 0
}

/// Sixteen random bytes of a version-4 UUID.
///
/// Calls `uuid::Uuid::new_v4` and returns its bytes. The bytes are random; the
/// contract claims only the fixed version and variant bits that `new_v4` sets
/// (it masks a random `u128` and ORs in `0x4000_8000_0000_0000_0000`).
#[verifier::external_body]
fn random_uuid_bytes() -> (b: [u8; 16])
    ensures
        b@[6] / 16 == 4,
        b@[8] / 64 == 2,
{
    *uuid::Uuid::new_v4().as_bytes()
}

fn bytes16_from_slice(s: &[u8]) -> (b: [u8; 16])
    ensures
        b@ == padded(s@, 16),
{
    let mut b = [0u8; 16];
    let mut i: usize = 0;
    while i < 16 && i < s.len()
        invariant
            i <= 16,
            i <= s@.len(),
            b@.len() == 16,
            forall|j: int| 0 <= j < i ==> b@[j] == s@[j],
            forall|j: int| i <= j < 16 ==> b@[j] == 0,
        decreases 16 - i,
    {
        b[i] = s[i];
        i = i + 1;
    }
    assert(b@ =~= padded(s@, 16));
    b
}

fn bytes28_from_slice(s: &[u8]) -> (b: [u8; 28])
    ensures
        b@ == padded(s@, 28),
{
    let mut b = [0u8; 28];
    let mut i: usize = 0;
    while i < 28 && i < s.len()
        invariant
            i <= 28,
            i <= s@.len(),
            b@.len() == 28,
            forall|j: int| 0 <= j < i ==> b@[j] == s@[j],
            forall|j: int| i <= j < 28 ==> b@[j] == 0,
        decreases 28 - i,
    {
        b[i] = s[i];
        i = i + 1;
    }
    assert(b@ =~= padded(s@, 28));
    b
}

/// Byte-wise equality of two byte strings.
pub fn bytes_equal(a: &[u8], b: &[u8]) -> (r: bool)
    ensures
        r == (a@ == b@),
{
    if a.len() != b.len() {
        return false;
    }
    let mut i: usize = 0;
    while i < a.len()
        invariant
            i <= a@.len(),
            a@.len() == b@.len(),
            forall|j: int| 0 <= j < i ==> a@[j] == b@[j],
        decreases a@.len() - i,
    {
        if a[i] != b[i] {
            return false;
        }
        i = i + 1;
    }
    assert(a@ =~= b@);
    true
}

/// The first four bytes of an identifier in hexadecimal, as it is displayed.
pub fn short_hex(bytes: &[u8]) -> (s: String)
    requires
        bytes@.len() >= 4,
    ensures
        s@ == hex_text(bytes@.subrange(0, 4)),
{
    let mut head: Vec<u8> = Vec::new();
    let mut i: usize = 0;
    while i < 4
        invariant
            i <= 4,
            bytes@.len() >= 4,
            head@ == bytes@.subrange(0, i as int),
        decreases 4 - i,
    {
        head.push(bytes[i]);
        assert(head@ =~= bytes@.subrange(0, i as int + 1));
        i = i + 1;
    }
    encode(head.as_slice())
}

/// Unique identifier for a task.
#[derive(Hash, Debug)]
pub struct TaskId([u8; 16]);

impl View for TaskId {
    type V = Seq<u8>;

    closed spec fn view(&self) -> Seq<u8> {
        self.0@
    }
}

impl TaskId {
    /// Every identifier of this kind is 16 bytes long.
    pub fn reveal_len(&self)
        ensures
            self@.len() == 16,
    {
    }

    /// A new random identifier.
    pub fn new() -> (id: Self)
        ensures
            id@.len() == 16,
            is_fresh_id_bytes(id@),
    {
        let u = random_uuid_bytes();
        let b = bytes16_from_slice(&u);
        TaskId(b)
    }

    /// The identifier with exactly these bytes.
    pub fn from_bytes(bytes: [u8; 16]) -> (id: Self)
        ensures
            id@ == bytes@,
    {
        TaskId(bytes)
    }

    /// The identifier with the bytes of `slice`, which must have exactly
    /// the identifier's length.
    pub fn from_slice(slice: &[u8]) -> (id: Self)
        requires
            slice@.len() == 16,
        ensures
            id@ == slice@,
    {
        proof {
            law_padded_same_length(slice@, 16);
        }
        TaskId(bytes16_from_slice(slice))
    }

    /// The raw bytes.
    pub fn as_bytes(&self) -> (b: &[u8; 16])
        ensures
            b@ == self@,
    {
        &self.0
    }

    /// The raw bytes as a vector.
    pub fn to_vec(&self) -> (v: Vec<u8>)
        ensures
            v@ == self@,
    {
        let mut v: Vec<u8> = Vec::new();
        let mut i: usize = 0;
        while i < 16
            invariant
                i <= 16,
                self.0@.len() == 16,
                v@ == self@.subrange(0, i as int),
            decreases 16 - i,
        {
            v.push(self.0[i]);
            assert(v@ =~= self@.subrange(0, i as int + 1));
            i = i + 1;
        }
        assert(self@.subrange(0, 16) =~= self@);
        v
    }

    /// Same as `from_slice`.
    pub fn from_vec(v: &[u8]) -> (id: Self)
        requires
            v@.len() == 16,
        ensures
            id@ == v@,
    {
        Self::from_slice(v)
    }

    /// The displayed form: the first four bytes in hexadecimal.
    pub fn display_string(&self) -> (s: String)
        ensures
            s@ == hex_text(self@.subrange(0, 4)),
    {
        short_hex(&self.0)
    }

    /// The debug form: `TaskId(` followed by the displayed form and `)`.
    pub fn debug_string(&self) -> (s: String)
        ensures
            s@ == "TaskId("@ + hex_text(self@.subrange(0, 4)) + ")"@,
    {
        let mut s = String::from_str("TaskId(");
        let h = short_hex(&self.0);
        s.append(h.as_str());
        s.append(")");
        s
    }
}

impl Default for TaskId {
    /// The all-zero identifier.
    fn default() -> (id: Self)
        ensures
            id@ == Seq::new(16, |i: int| 0u8),
    {
        let id = TaskId([0u8; 16]);
        assert(id@ =~= Seq::new(16, |i: int| 0u8));
        id
    }
}

impl Clone for TaskId {
    fn clone(&self) -> (id: Self)
        ensures
            id == *self,
            id@ == self@,
    {
        TaskId(self.0)
    }
}

impl PartialEq for TaskId {
    fn eq(&self, other: &Self) -> (r: bool) {
        bytes_equal(&self.0, &other.0)
    }
}

impl PartialEqSpecImpl for TaskId {
    open spec fn obeys_eq_spec() -> bool {
        true
    }

    open spec fn eq_spec(&self, other: &Self) -> bool {
        self@ == other@
    }
}

impl Eq for TaskId {}

impl KeyEq for TaskId {
    fn key_eq(&self, other: &Self) -> (b: bool) {
        bytes_equal(&self.0, &other.0)
    }
}

/// Unique identifier for an actor.
#[derive(Hash, Debug)]
pub struct ActorId([u8; 16]);

impl View for ActorId {
    type V = Seq<u8>;

    closed spec fn view(&self) -> Seq<u8> {
        self.0@
    }
}

impl ActorId {
    /// Every identifier of this kind is 16 bytes long.
    pub fn reveal_len(&self)
        ensures
            self@.len() == 16,
    {
    }

    /// A new random identifier.
    pub fn new() -> (id: Self)
        ensures
            id@.len() == 16,
            is_fresh_id_bytes(id@),
    {
        let u = random_uuid_bytes();
        let b = bytes16_from_slice(&u);
        ActorId(b)
    }

    /// The identifier with exactly these bytes.
    pub fn from_bytes(bytes: [u8; 16]) -> (id: Self)
        ensures
            id@ == bytes@,
    {
        ActorId(bytes)
    }

    /// The identifier with the bytes of `slice`, which must have exactly
    /// the identifier's length.
    pub fn from_slice(slice: &[u8]) -> (id: Self)
        requires
            slice@.len() == 16,
        ensures
            id@ == slice@,
    {
        proof {
            law_padded_same_length(slice@, 16);
        }
        ActorId(bytes16_from_slice(slice))
    }

    /// The raw bytes.
    pub fn as_bytes(&self) -> (b: &[u8; 16])
        ensures
            b@ == self@,
    {
        &self.0
    }

    /// The raw bytes as a vector.
    pub fn to_vec(&self) -> (v: Vec<u8>)
        ensures
            v@ == self@,
    {
        let mut v: Vec<u8> = Vec::new();
        let mut i: usize = 0;
        while i < 16
            invariant
                i <= 16,
                self.0@.len() == 16,
                v@ == self@.subrange(0, i as int),
            decreases 16 - i,
        {
            v.push(self.0[i]);
            assert(v@ =~= self@.subrange(0, i as int + 1));
            i = i + 1;
        }
        assert(self@.subrange(0, 16) =~= self@);
        v
    }

    /// Same as `from_slice`.
    pub fn from_vec(v: &[u8]) -> (id: Self)
        requires
            v@.len() == 16,
        ensures
            id@ == v@,
    {
        Self::from_slice(v)
    }

    /// The displayed form: the first four bytes in hexadecimal.
    pub fn display_string(&self) -> (s: String)
        ensures
            s@ == hex_text(self@.subrange(0, 4)),
    {
        short_hex(&self.0)
    }

    /// The debug form: `ActorId(` followed by the displayed form and `)`.
    pub fn debug_string(&self) -> (s: String)
        ensures
            s@ == "ActorId("@ + hex_text(self@.subrange(0, 4)) + ")"@,
    {
        let mut s = String::from_str("ActorId(");
        let h = short_hex(&self.0);
        s.append(h.as_str());
        s.append(")");
        s
    }
}

impl Default for ActorId {
    /// The all-zero identifier.
    fn default() -> (id: Self)
        ensures
            id@ == Seq::new(16, |i: int| 0u8),
    {
        let id = ActorId([0u8; 16]);
        assert(id@ =~= Seq::new(16, |i: int| 0u8));
        id
    }
}

impl Clone for ActorId {
    fn clone(&self) -> (id: Self)
        ensures
            id == *self,
            id@ == self@,
    {
        ActorId(self.0)
    }
}

impl PartialEq for ActorId {
    fn eq(&self, other: &Self) -> (r: bool) {
        bytes_equal(&self.0, &other.0)
    }
}

impl PartialEqSpecImpl for ActorId {
    open spec fn obeys_eq_spec() -> bool {
        true
    }

    open spec fn eq_spec(&self, other: &Self) -> bool {
        self@ == other@
    }
}

impl Eq for ActorId {}

impl KeyEq for ActorId {
    fn key_eq(&self, other: &Self) -> (b: bool) {
        bytes_equal(&self.0, &other.0)
    }
}

/// Unique identifier for a worker process.
#[derive(Hash, Debug)]
pub struct WorkerId([u8; 16]);

impl View for WorkerId {
    type V = Seq<u8>;

    closed spec fn view(&self) -> Seq<u8> {
        self.0@
    }
}

impl WorkerId {
    /// Every identifier of this kind is 16 bytes long.
    pub fn reveal_len(&self)
        ensures
            self@.len() == 16,
    {
    }

    /// A new random identifier.
    pub fn new() -> (id: Self)
        ensures
            id@.len() == 16,
            is_fresh_id_bytes(id@),
    {
        let u = random_uuid_bytes();
        let b = bytes16_from_slice(&u);
        WorkerId(b)
    }

    /// The identifier with exactly these bytes.
    pub fn from_bytes(bytes: [u8; 16]) -> (id: Self)
        ensures
            id@ == bytes@,
    {
        WorkerId(bytes)
    }

    /// The identifier with the bytes of `slice`, which must have exactly
    /// the identifier's length.
    pub fn from_slice(slice: &[u8]) -> (id: Self)
        requires
            slice@.len() == 16,
        ensures
            id@ == slice@,
    {
        proof {
            law_padded_same_length(slice@, 16);
        }
        WorkerId(bytes16_from_slice(slice))
    }

    /// The raw bytes.
    pub fn as_bytes(&self) -> (b: &[u8; 16])
        ensures
            b@ == self@,
    {
        &self.0
    }

    /// The raw bytes as a vector.
    pub fn to_vec(&self) -> (v: Vec<u8>)
        ensures
            v@ == self@,
    {
        let mut v: Vec<u8> = Vec::new();
        let mut i: usize = 0;
        while i < 16
            invariant
                i <= 16,
                self.0@.len() == 16,
                v@ == self@.subrange(0, i as int),
            decreases 16 - i,
        {
            v.push(self.0[i]);
            assert(v@ =~= self@.subrange(0, i as int + 1));
            i = i + 1;
        }
        assert(self@.subrange(0, 16) =~= self@);
        v
    }

    /// Same as `from_slice`.
    pub fn from_vec(v: &[u8]) -> (id: Self)
        requires
            v@.len() == 16,
        ensures
            id@ == v@,
    {
        Self::from_slice(v)
    }

    /// The displayed form: the first four bytes in hexadecimal.
    pub fn display_string(&self) -> (s: String)
        ensures
            s@ == hex_text(self@.subrange(0, 4)),
    {
        short_hex(&self.0)
    }

    /// The debug form: `WorkerId(` followed by the displayed form and `)`.
    pub fn debug_string(&self) -> (s: String)
        ensures
            s@ == "WorkerId("@ + hex_text(self@.subrange(0, 4)) + ")"@,
    {
        let mut s = String::from_str("WorkerId(");
        let h = short_hex(&self.0);
        s.append(h.as_str());
        s.append(")");
        s
    }
}

impl Default for WorkerId {
    /// The all-zero identifier.
    fn default() -> (id: Self)
        ensures
            id@ == Seq::new(16, |i: int| 0u8),
    {
        let id = WorkerId([0u8; 16]);
        assert(id@ =~= Seq::new(16, |i: int| 0u8));
        id
    }
}

impl Clone for WorkerId {
    fn clone(&self) -> (id: Self)
        ensures
            id == *self,
            id@ == self@,
    {
        WorkerId(self.0)
    }
}

impl PartialEq for WorkerId {
    fn eq(&self, other: &Self) -> (r: bool) {
        bytes_equal(&self.0, &other.0)
    }
}

impl PartialEqSpecImpl for WorkerId {
    open spec fn obeys_eq_spec() -> bool {
        true
    }

    open spec fn eq_spec(&self, other: &Self) -> bool {
        self@ == other@
    }
}

impl Eq for WorkerId {}

impl KeyEq for WorkerId {
    fn key_eq(&self, other: &Self) -> (b: bool) {
        bytes_equal(&self.0, &other.0)
    }
}

/// Unique identifier for a node in the cluster.
#[derive(Hash, Debug)]
pub struct NodeId([u8; 16]);

impl View for NodeId {
    type V = Seq<u8>;

    closed spec fn view(&self) -> Seq<u8> {
        self.0@
    }
}

impl NodeId {
    /// Every identifier of this kind is 16 bytes long.
    pub fn reveal_len(&self)
        ensures
            self@.len() == 16,
    {
    }

    /// A new random identifier.
    pub fn new() -> (id: Self)
        ensures
            id@.len() == 16,
            is_fresh_id_bytes(id@),
    {
        let u = random_uuid_bytes();
        let b = bytes16_from_slice(&u);
        NodeId(b)
    }

    /// The identifier with exactly these bytes.
    pub fn from_bytes(bytes: [u8; 16]) -> (id: Self)
        ensures
            id@ == bytes@,
    {
        NodeId(bytes)
    }

    /// The identifier with the bytes of `slice`, which must have exactly
    /// the identifier's length.
    pub fn from_slice(slice: &[u8]) -> (id: Self)
        requires
            slice@.len() == 16,
        ensures
            id@ == slice@,
    {
        proof {
            law_padded_same_length(slice@, 16);
        }
        NodeId(bytes16_from_slice(slice))
    }

    /// The raw bytes.
    pub fn as_bytes(&self) -> (b: &[u8; 16])
        ensures
            b@ == self@,
    {
        &self.0
    }

    /// The raw bytes as a vector.
    pub fn to_vec(&self) -> (v: Vec<u8>)
        ensures
            v@ == self@,
    {
        let mut v: Vec<u8> = Vec::new();
        let mut i: usize = 0;
        while i < 16
            invariant
                i <= 16,
                self.0@.len() == 16,
                v@ == self@.subrange(0, i as int),
            decreases 16 - i,
        {
            v.push(self.0[i]);
            assert(v@ =~= self@.subrange(0, i as int + 1));
            i = i + 1;
        }
        assert(self@.subrange(0, 16) =~= self@);
        v
    }

    /// Same as `from_slice`.
    pub fn from_vec(v: &[u8]) -> (id: Self)
        requires
            v@.len() == 16,
        ensures
            id@ == v@,
    {
        Self::from_slice(v)
    }

    /// The displayed form: the first four bytes in hexadecimal.
    pub fn display_string(&self) -> (s: String)
        ensures
            s@ == hex_text(self@.subrange(0, 4)),
    {
        short_hex(&self.0)
    }

    /// The debug form: `NodeId(` followed by the displayed form and `)`.
    pub fn debug_string(&self) -> (s: String)
        ensures
            s@ == "NodeId("@ + hex_text(self@.subrange(0, 4)) + ")"@,
    {
        let mut s = String::from_str("NodeId(");
        let h = short_hex(&self.0);
        s.append(h.as_str());
        s.append(")");
        s
    }
}

impl Default for NodeId {
    /// The all-zero identifier.
    fn default() -> (id: Self)
        ensures
            id@ == Seq::new(16, |i: int| 0u8),
    {
        let id = NodeId([0u8; 16]);
        assert(id@ =~= Seq::new(16, |i: int| 0u8));
        id
    }
}

impl Clone for NodeId {
    fn clone(&self) -> (id: Self)
        ensures
            id == *self,
            id@ == self@,
    {
        NodeId(self.0)
    }
}

impl PartialEq for NodeId {
    fn eq(&self, other: &Self) -> (r: bool) {
        bytes_equal(&self.0, &other.0)
    }
}

impl PartialEqSpecImpl for NodeId {
    open spec fn obeys_eq_spec() -> bool {
        true
    }

    open spec fn eq_spec(&self, other: &Self) -> bool {
        self@ == other@
    }
}

impl Eq for NodeId {}

impl KeyEq for NodeId {
    fn key_eq(&self, other: &Self) -> (b: bool) {
        bytes_equal(&self.0, &other.0)
    }
}

/// Unique identifier for a job.
#[derive(Hash, Debug)]
pub struct JobId([u8; 16]);

impl View for JobId {
    type V = Seq<u8>;

    closed spec fn view(&self) -> Seq<u8> {
        self.0@
    }
}

impl JobId {
    /// Every identifier of this kind is 16 bytes long.
    pub fn reveal_len(&self)
        ensures
            self@.len() == 16,
    {
    }

    /// A new random identifier.
    pub fn new() -> (id: Self)
        ensures
            id@.len() == 16,
            is_fresh_id_bytes(id@),
    {
        let u = random_uuid_bytes();
        let b = bytes16_from_slice(&u);
        JobId(b)
    }

    /// The identifier with exactly these bytes.
    pub fn from_bytes(bytes: [u8; 16]) -> (id: Self)
        ensures
            id@ == bytes@,
    {
        JobId(bytes)
    }

    /// The identifier with the bytes of `slice`, which must have exactly
    /// the identifier's length.
    pub fn from_slice(slice: &[u8]) -> (id: Self)
        requires
            slice@.len() == 16,
        ensures
            id@ == slice@,
    {
        proof {
            law_padded_same_length(slice@, 16);
        }
        JobId(bytes16_from_slice(slice))
    }

    /// The raw bytes.
    pub fn as_bytes(&self) -> (b: &[u8; 16])
        ensures
            b@ == self@,
    {
        &self.0
    }

    /// The raw bytes as a vector.
    pub fn to_vec(&self) -> (v: Vec<u8>)
        ensures
            v@ == self@,
    {
        let mut v: Vec<u8> = Vec::new();
        let mut i: usize = 0;
        while i < 16
            invariant
                i <= 16,
                self.0@.len() == 16,
                v@ == self@.subrange(0, i as int),
            decreases 16 - i,
        {
            v.push(self.0[i]);
            assert(v@ =~= self@.subrange(0, i as int + 1));
            i = i + 1;
        }
        assert(self@.subrange(0, 16) =~= self@);
        v
    }

    /// Same as `from_slice`.
    pub fn from_vec(v: &[u8]) -> (id: Self)
        requires
            v@.len() == 16,
        ensures
            id@ == v@,
    {
        Self::from_slice(v)
    }

    /// The displayed form: the first four bytes in hexadecimal.
    pub fn display_string(&self) -> (s: String)
        ensures
            s@ == hex_text(self@.subrange(0, 4)),
    {
        short_hex(&self.0)
    }

    /// The debug form: `JobId(` followed by the displayed form and `)`.
    pub fn debug_string(&self) -> (s: String)
        ensures
            s@ == "JobId("@ + hex_text(self@.subrange(0, 4)) + ")"@,
    {
        let mut s = String::from_str("JobId(");
        let h = short_hex(&self.0);
        s.append(h.as_str());
        s.append(")");
        s
    }
}

impl Default for JobId {
    /// The all-zero identifier.
    fn default() -> (id: Self)
        ensures
            id@ == Seq::new(16, |i: int| 0u8),
    {
        let id = JobId([0u8; 16]);
        assert(id@ =~= Seq::new(16, |i: int| 0u8));
        id
    }
}

impl Clone for JobId {
    fn clone(&self) -> (id: Self)
        ensures
            id == *self,
            id@ == self@,
    {
        JobId(self.0)
    }
}

impl PartialEq for JobId {
    fn eq(&self, other: &Self) -> (r: bool) {
        bytes_equal(&self.0, &other.0)
    }
}

impl PartialEqSpecImpl for JobId {
    open spec fn obeys_eq_spec() -> bool {
        true
    }

    open spec fn eq_spec(&self, other: &Self) -> bool {
        self@ == other@
    }
}

impl Eq for JobId {}

impl KeyEq for JobId {
    fn key_eq(&self, other: &Self) -> (b: bool) {
        bytes_equal(&self.0, &other.0)
    }
}

/// Unique identifier for an object (task_id + return_index).
#[derive(Hash, Debug)]
pub struct ObjectId([u8; 28]);

impl View for ObjectId {
    type V = Seq<u8>;

    closed spec fn view(&self) -> Seq<u8> {
        self.0@
    }
}

impl ObjectId {
    /// Every identifier of this kind is 28 bytes long.
    pub fn reveal_len(&self)
        ensures
            self@.len() == 28,
    {
    }

    /// A new random identifier.
    pub fn new() -> (id: Self)
        ensures
            id@.len() == 28,
            is_fresh_id_bytes(id@),
    {
        let u = random_uuid_bytes();
        let b = bytes28_from_slice(&u);
        ObjectId(b)
    }

    /// The identifier with exactly these bytes.
    pub fn from_bytes(bytes: [u8; 28]) -> (id: Self)
        ensures
            id@ == bytes@,
    {
        ObjectId(bytes)
    }

    /// The identifier with the bytes of `slice`, which must have exactly
    /// the identifier's length.
    pub fn from_slice(slice: &[u8]) -> (id: Self)
        requires
            slice@.len() == 28,
        ensures
            id@ == slice@,
    {
        proof {
            law_padded_same_length(slice@, 28);
        }
        ObjectId(bytes28_from_slice(slice))
    }

    /// The raw bytes.
    pub fn as_bytes(&self) -> (b: &[u8; 28])
        ensures
            b@ == self@,
    {
        &self.0
    }

    /// The raw bytes as a vector.
    pub fn to_vec(&self) -> (v: Vec<u8>)
        ensures
            v@ == self@,
    {
        let mut v: Vec<u8> = Vec::new();
        let mut i: usize = 0;
        while i < 28
            invariant
                i <= 28,
                self.0@.len() == 28,
                v@ == self@.subrange(0, i as int),
            decreases 28 - i,
        {
            v.push(self.0[i]);
            assert(v@ =~= self@.subrange(0, i as int + 1));
            i = i + 1;
        }
        assert(self@.subrange(0, 28) =~= self@);
        v
    }

    /// Same as `from_slice`.
    pub fn from_vec(v: &[u8]) -> (id: Self)
        requires
            v@.len() == 28,
        ensures
            id@ == v@,
    {
        Self::from_slice(v)
    }

    /// The displayed form: the first four bytes in hexadecimal.
    pub fn display_string(&self) -> (s: String)
        ensures
            s@ == hex_text(self@.subrange(0, 4)),
    {
        short_hex(&self.0)
    }

    /// The debug form: `ObjectId(` followed by the displayed form and `)`.
    pub fn debug_string(&self) -> (s: String)
        ensures
            s@ == "ObjectId("@ + hex_text(self@.subrange(0, 4)) + ")"@,
    {
        let mut s = String::from_str("ObjectId(");
        let h = short_hex(&self.0);
        s.append(h.as_str());
        s.append(")");
        s
    }
}

impl Default for ObjectId {
    /// The all-zero identifier.
    fn default() -> (id: Self)
        ensures
            id@ == Seq::new(28, |i: int| 0u8),
    {
        let id = ObjectId([0u8; 28]);
        assert(id@ =~= Seq::new(28, |i: int| 0u8));
        id
    }
}

impl Clone for ObjectId {
    fn clone(&self) -> (id: Self)
        ensures
            id == *self,
            id@ == self@,
    {
        ObjectId(self.0)
    }
}

impl PartialEq for ObjectId {
    fn eq(&self, other: &Self) -> (r: bool) {
        bytes_equal(&self.0, &other.0)
    }
}

impl PartialEqSpecImpl for ObjectId {
    open spec fn obeys_eq_spec() -> bool {
        true
    }

    open spec fn eq_spec(&self, other: &Self) -> bool {
        self@ == other@
    }
}

impl Eq for ObjectId {}

impl KeyEq for ObjectId {
    fn key_eq(&self, other: &Self) -> (b: bool) {
        bytes_equal(&self.0, &other.0)
    }
}

} // verus!
