//! In-memory object store: immutable byte objects keyed by `ObjectId`, with
//! reference counting, a memory budget that evicts unreferenced objects, and
//! spill/restore bookkeeping.

use vstd::prelude::*;
use vstd::slice::slice_to_vec;
use vstd::string::*;
use crate::error::{RayError, RayResult};
use crate::id::ObjectId;
use crate::table::{Table, map_of, lemma_map_of_at, lemma_map_of_len, lemma_map_of_update};
use crate::text::{dec_text, hex_text, int_text, usize_text, i64_text, encode};

verus! {

/// `std::time::Instant`, the creation time of an object.
#[verifier::external_type_specification]
#[verifier::external_body]
pub struct ExInstant(std::time::Instant);

/// Reads the monotonic clock through `std::time::Instant::now`. The value
/// depends on when it is called; nothing is claimed of it.
#[verifier::external_body]
fn current_instant() -> std::time::Instant {
    std::time::Instant::now()
}

/// Metadata and data of a stored object.
#[derive(Debug)]
pub struct ObjectEntry {
    pub object_id: ObjectId,
    pub data: Vec<u8>,
    pub create_time: std::time::Instant,
    pub ref_count: u32,
    pub is_spilled: bool,
    pub spill_url: Option<String>,
}

/// `b` is a faithful copy of `a`.
pub open spec fn same_entry(a: ObjectEntry, b: ObjectEntry) -> bool {
    &&& a.object_id == b.object_id
    &&& a.data@ == b.data@
    &&& a.create_time == b.create_time
    &&& a.ref_count == b.ref_count
    &&& a.is_spilled == b.is_spilled
    &&& a.spill_url == b.spill_url
}

impl ObjectEntry {
    /// Return current reference count.
    pub fn ref_count(&self) -> (n: u32)
        ensures
            n == self.ref_count,
    {
        self.ref_count
    }
}

impl Clone for ObjectEntry {
    fn clone(&self) -> (e: Self)
        ensures
            same_entry(*self, e),
    {
        let url = match &self.spill_url {
            Some(u) => Some(u.clone()),
            None => None,
        };
        ObjectEntry {
            object_id: self.object_id.clone(),
            data: slice_to_vec(self.data.as_slice()),
            create_time: self.create_time,
            ref_count: self.ref_count,
            is_spilled: self.is_spilled,
            spill_url: url,
        }
    }
}

/// Total number of data bytes held by the objects of `m`.
pub open spec fn map_total(m: Map<Seq<u8>, ObjectEntry>) -> nat
    decreases m.dom().len(),
    when m.dom().finite()
{
    if m.dom().len() > 0 {
        let k = m.dom().choose();
        m[k].data@.len() + map_total(m.remove(k))
    } else {
        0
    }
}

/// Total number of data bytes of a sequence of entries.
pub open spec fn seq_total(s: Seq<ObjectEntry>) -> nat
    decreases s.len(),
{
    if s.len() == 0 {
        0
    } else {
        seq_total(s.drop_last()) + s.last().data@.len()
    }
}

/// The objects of `m` whose reference count is positive.
pub open spec fn referenced_only(m: Map<Seq<u8>, ObjectEntry>) -> Map<Seq<u8>, ObjectEntry> {
    Map::new(|k: Seq<u8>| m.contains_key(k) && m[k].ref_count > 0, |k: Seq<u8>| m[k])
}

/// The total may be computed by taking out any one object first.
pub proof fn lemma_map_total_remove(m: Map<Seq<u8>, ObjectEntry>, k: Seq<u8>)
    requires
        m.dom().finite(),
        m.contains_key(k),
    ensures
        map_total(m) == m[k].data@.len() + map_total(m.remove(k)),
    decreases m.dom().len(),
{
    let c = m.dom().choose();
    if c != k {
        let mc = m.remove(c);
        let mk = m.remove(k);
        lemma_map_total_remove(mc, k);
        lemma_map_total_remove(mk, c);
        assert(mc.remove(k) =~= mk.remove(c));
    }
}

/// Summing the entries in table order gives the total of the map they form.
pub proof fn lemma_seq_total_is_map_total(ks: Seq<Seq<u8>>, vs: Seq<ObjectEntry>)
    requires
        ks.no_duplicates(),
        ks.len() == vs.len(),
    ensures
        seq_total(vs) == map_total(map_of(ks, vs)),
        map_of(ks, vs).dom().finite(),
    decreases ks.len(),
{
    lemma_map_of_len(ks, vs);
    if ks.len() > 0 {
        let n = ks.len() - 1;
        let ks0 = ks.drop_last();
        let vs0 = vs.drop_last();
        let m = map_of(ks, vs);
        assert(ks0.no_duplicates());
        lemma_seq_total_is_map_total(ks0, vs0);
        lemma_map_of_at(ks, vs, n);
        assert forall|key: Seq<u8>| #[trigger] m.remove(ks[n]).contains_key(key) implies
            map_of(ks0, vs0).contains_key(key) && m.remove(ks[n])[key] == map_of(ks0, vs0)[key] by {
            let j = ks.index_of(key);
            lemma_map_of_at(ks, vs, j);
            assert(j < n);
            assert(ks0[j] == key);
            lemma_map_of_at(ks0, vs0, j);
        }
        assert forall|key: Seq<u8>| #[trigger] map_of(ks0, vs0).contains_key(key) implies
            m.remove(ks[n]).contains_key(key) by {
            let j = ks0.index_of(key);
            assert(ks[j] == ks0[j]);
        }
        assert(m.remove(ks[n]) =~= map_of(ks0, vs0));
        lemma_map_total_remove(m, ks[n]);
    }
}

/// A prefix of the entries holds at most as many bytes as all of them.
proof fn lemma_seq_total_prefix(s: Seq<ObjectEntry>, i: int)
    requires
        0 <= i <= s.len(),
    ensures
        seq_total(s.subrange(0, i)) <= seq_total(s),
        i < s.len() ==> seq_total(s.subrange(0, i + 1)) == seq_total(s.subrange(0, i)) + s[i].data@.len(),
    decreases s.len(),
{
    if i < s.len() {
        assert(s.subrange(0, i + 1).drop_last() =~= s.subrange(0, i));
    }
    if i == s.len() {
        assert(s.subrange(0, i) =~= s);
    } else {
        lemma_seq_total_prefix(s.drop_last(), i);
        assert(s.drop_last().subrange(0, i) =~= s.subrange(0, i));
    }
}

/// Replacing or adding one object changes the total by the sizes involved.
pub proof fn lemma_map_total_insert(m: Map<Seq<u8>, ObjectEntry>, k: Seq<u8>, e: ObjectEntry)
    requires
        m.dom().finite(),
    ensures
        map_total(m.insert(k, e)) == map_total(m.remove(k)) + e.data@.len(),
        map_total(m.remove(k)) <= map_total(m),
        m.contains_key(k) ==> map_total(m) == map_total(m.remove(k)) + m[k].data@.len(),
{
    lemma_map_total_remove(m.insert(k, e), k);
    assert(m.insert(k, e).remove(k) =~= m.remove(k));
    if m.contains_key(k) {
        lemma_map_total_remove(m, k);
    } else {
        assert(m.remove(k) =~= m);
    }
}

/// The text of the error returned when an object does not fit the budget.
pub open spec fn store_full_message(current: nat, len: nat, max: nat) -> Seq<char> {
    "Object store full: "@ + dec_text(current) + " + "@ + dec_text(len) + " > "@ + dec_text(max) + " bytes"@
}

/// The debug form of an object id, as it appears in error messages.
pub open spec fn object_id_text(id: Seq<u8>) -> Seq<char> {
    "ObjectId("@ + hex_text(id.subrange(0, 4)) + ")"@
}

/// The text of the error returned when an object does not appear in time.
pub open spec fn timeout_message(id: Seq<u8>, timeout_ms: int) -> Seq<char> {
    "Object "@ + object_id_text(id) + " not available after "@ + int_text(timeout_ms) + "ms"@
}

/// Number of `true` flags.
pub open spec fn count_true(flags: Seq<bool>) -> nat
    decreases flags.len(),
{
    if flags.len() == 0 {
        0
    } else {
        count_true(flags.drop_last()) + if flags.last() { 1nat } else { 0nat }
    }
}

/// The file name under which an object is spilled: its id in hexadecimal
/// followed by ".bin".
pub open spec fn spill_file_text(id: Seq<u8>) -> Seq<char> {
    hex_text(id) + ".bin"@
}

/// Whether the keys of a table are the ids recorded in its entries.
pub open spec fn ids_match(ks: Seq<Seq<u8>>, vs: Seq<ObjectEntry>) -> bool {
    forall|i: int| 0 <= i < ks.len() ==> (#[trigger] vs[i]).object_id@ == ks[i]
}

proof fn lemma_ids_match_remove(ks: Seq<Seq<u8>>, vs: Seq<ObjectEntry>, i: int)
    requires
        ids_match(ks, vs),
        ks.len() == vs.len(),
        0 <= i < ks.len(),
    ensures
        ids_match(ks.remove(i), vs.remove(i)),
{
    assert forall|j: int| 0 <= j < ks.remove(i).len() implies (#[trigger] vs.remove(i)[j]).object_id@ == ks.remove(i)[j] by {
        if j < i {
            assert(vs.remove(i)[j] == vs[j]);
        } else {
            assert(vs.remove(i)[j] == vs[j + 1]);
        }
    }
}

proof fn lemma_ids_match_update(ks: Seq<Seq<u8>>, vs: Seq<ObjectEntry>, i: int, e: ObjectEntry)
    requires
        ids_match(ks, vs),
        ks.len() == vs.len(),
        0 <= i < ks.len(),
        e.object_id@ == ks[i],
    ensures
        ids_match(ks, vs.update(i, e)),
{
    assert forall|j: int| 0 <= j < ks.len() implies (#[trigger] vs.update(i, e)[j]).object_id@ == ks[j] by {
        if j != i {
            assert(vs.update(i, e)[j] == vs[j]);
        }
    }
}

/// The data a get of `k` returns from the objects `m`, if `k` is stored.
pub open spec fn stored_data(m: Map<Seq<u8>, ObjectEntry>, k: Seq<u8>) -> Option<Seq<u8>> {
    if m.contains_key(k) {
        Some(m[k].data@)
    } else {
        None
    }
}

/// A get returns what the last put of the same id stored, and a put leaves
/// the data of every other id as it was.
pub proof fn law_get_after_put(m: Map<Seq<u8>, ObjectEntry>, k: Seq<u8>, e: ObjectEntry, other: Seq<u8>)
    requires
        other != k,
    ensures
        stored_data(m.insert(k, e), k) == Some(e.data@),
        stored_data(m.insert(k, e), other) == stored_data(m, other),
{
}

/// The store after `add_reference(k)`: the count of a stored object goes
/// up by one; an unknown id changes nothing.
pub open spec fn after_add_reference(m: Map<Seq<u8>, ObjectEntry>, k: Seq<u8>) -> Map<Seq<u8>, ObjectEntry> {
    if m.contains_key(k) {
        m.insert(k, ObjectEntry { ref_count: (m[k].ref_count + 1) as u32, ..m[k] })
    } else {
        m
    }
}

/// The store after `remove_reference(k)`: the count goes down by one, and
/// an object whose count reaches zero (or already was zero) is removed.
pub open spec fn after_remove_reference(m: Map<Seq<u8>, ObjectEntry>, k: Seq<u8>) -> Map<Seq<u8>, ObjectEntry> {
    if m.contains_key(k) {
        if m[k].ref_count <= 1 {
            m.remove(k)
        } else {
            m.insert(k, ObjectEntry { ref_count: (m[k].ref_count - 1) as u32, ..m[k] })
        }
    } else {
        m
    }
}

/// Removing a reference undoes adding one, for an object that is held by
/// at least one reference.
pub proof fn law_remove_reference_undoes_add(m: Map<Seq<u8>, ObjectEntry>, k: Seq<u8>)
    requires
        m.contains_key(k),
        0 < m[k].ref_count < u32::MAX,
    ensures
        after_remove_reference(after_add_reference(m, k), k) == m,
{
    let e = m[k];
    assert(ObjectEntry { ref_count: (((e.ref_count + 1) as u32) - 1) as u32, ..ObjectEntry { ref_count: (e.ref_count + 1) as u32, ..e } } == e);
    assert(after_remove_reference(after_add_reference(m, k), k) =~= m);
}

/// Evicting twice evicts nothing more than evicting once.
pub proof fn law_evict_idempotent(m: Map<Seq<u8>, ObjectEntry>)
    ensures
        referenced_only(referenced_only(m)) == referenced_only(m),
{
    assert(referenced_only(referenced_only(m)) =~= referenced_only(m));
}

/// A store that keeps some of the objects of another, unchanged, holds at
/// most as many bytes.
proof fn lemma_map_total_submap(s: Map<Seq<u8>, ObjectEntry>, m: Map<Seq<u8>, ObjectEntry>)
    requires
        m.dom().finite(),
        s.dom().subset_of(m.dom()),
        forall|k: Seq<u8>| #[trigger] s.contains_key(k) ==> s[k] == m[k],
    ensures
        s.dom().finite(),
        map_total(s) <= map_total(m),
    decreases m.dom().len(),
{
    vstd::set_lib::lemma_len_subset(s.dom(), m.dom());
    if m.dom().len() == 0 {
        assert(s.dom().len() == 0);
    } else {
        let k = m.dom().choose();
        let m1 = m.remove(k);
        let s1 = s.remove(k);
        lemma_map_total_submap(s1, m1);
        lemma_map_total_remove(m, k);
        if s.contains_key(k) {
            lemma_map_total_remove(s, k);
        } else {
            assert(s1 =~= s);
        }
    }
}

/// Only storing or restoring data adds bytes to the store: deleting an
/// object, dropping or adding a reference and evicting unreferenced objects
/// never make it hold more, so a store within its budget stays within it.
pub proof fn law_only_put_and_restore_add_bytes(m: Map<Seq<u8>, ObjectEntry>, k: Seq<u8>)
    requires
        m.dom().finite(),
    ensures
        map_total(m.remove(k)) <= map_total(m),
        map_total(after_remove_reference(m, k)) <= map_total(m),
        map_total(after_add_reference(m, k)) == map_total(m),
        map_total(referenced_only(m)) <= map_total(m),
{
    lemma_map_total_submap(m.remove(k), m);
    if m.contains_key(k) {
        let e = m[k];
        let up = ObjectEntry { ref_count: (e.ref_count + 1) as u32, ..e };
        lemma_map_total_insert(m, k, up);
        if e.ref_count > 1 {
            let down = ObjectEntry { ref_count: (e.ref_count - 1) as u32, ..e };
            lemma_map_total_insert(m, k, down);
        }
    }
    lemma_map_total_submap(referenced_only(m), m);
}

/// In a store where every object is referenced, eviction removes nothing.
pub proof fn law_referenced_store_evicts_nothing(m: Map<Seq<u8>, ObjectEntry>)
    requires
        forall|k: Seq<u8>| #[trigger] m.contains_key(k) ==> m[k].ref_count > 0,
    ensures
        referenced_only(m) == m,
{
    assert(referenced_only(m) =~= m);
}

/// The entry after its data was written to the file at `url`.
pub open spec fn spilled(e: ObjectEntry, url: String) -> ObjectEntry {
    ObjectEntry { is_spilled: true, spill_url: Some(url), ..e }
}

/// The entry after `data` was read back from its spill file.
pub open spec fn restored(e: ObjectEntry, data: Vec<u8>) -> ObjectEntry {
    ObjectEntry { data, is_spilled: false, spill_url: None, ..e }
}

/// Spilling an object and restoring the same bytes gives back the object
/// as it was before the spill.
pub proof fn law_spill_restore_round_trip(e: ObjectEntry, url: String, data: Vec<u8>)
    requires
        !e.is_spilled,
        e.spill_url is None,
        data@ == e.data@,
    ensures
        same_entry(restored(spilled(e, url), data), e),
{
}

/// In-memory object store with a memory budget (0 = unlimited).
pub struct InMemoryObjectStore {
    objects: Table<ObjectId, ObjectEntry>,
    max_memory_bytes: usize,
}

impl View for InMemoryObjectStore {
    type V = Map<Seq<u8>, ObjectEntry>;

    closed spec fn view(&self) -> Map<Seq<u8>, ObjectEntry> {
        self.objects@
    }
}

impl InMemoryObjectStore {
    /// The memory budget in bytes; zero means unlimited.
    pub closed spec fn capacity(&self) -> usize {
        self.max_memory_bytes
    }

    /// Total number of data bytes of the stored objects.
    pub open spec fn total_bytes(&self) -> nat {
        map_total(self@)
    }

    /// Internal consistency: keys are unique, each entry records its own key,
    /// and the stored bytes can be counted in a `usize`.
    pub closed spec fn wf(&self) -> bool {
        &&& self.objects.wf()
        &&& ids_match(self.objects.key_seq(), self.objects.val_seq())
        &&& map_total(self.objects@) <= usize::MAX
    }

    /// Every stored object is filed under its own id, and the map is finite.
    pub proof fn lemma_wf(&self)
        requires
            self.wf(),
        ensures
            self@.dom().finite(),
            forall|k: Seq<u8>| #[trigger] self@.contains_key(k) ==> self@[k].object_id@ == k,
            self.total_bytes() <= usize::MAX,
    {
        lemma_map_of_len(self.objects.key_seq(), self.objects.val_seq());
        assert forall|k: Seq<u8>| #[trigger] self@.contains_key(k) implies self@[k].object_id@ == k by {
            let j = self.objects.key_seq().index_of(k);
            lemma_map_of_at(self.objects.key_seq(), self.objects.val_seq(), j);
        }
    }

    /// Every stored object is held by at least one reference. `new`
    /// establishes it and every operation keeps it, so a store used only
    /// through these operations never holds an unreferenced object.
    pub open spec fn all_referenced(&self) -> bool {
        forall|k: Seq<u8>| #[trigger] self@.contains_key(k) ==> self@[k].ref_count > 0
    }

    /// Create a new object store with the given memory budget.
    pub fn new(max_memory_bytes: usize) -> (s: Self)
        ensures
            s.wf(),
            s@ == Map::<Seq<u8>, ObjectEntry>::empty(),
            s.capacity() == max_memory_bytes,
            s.all_referenced(),
    {
        let s = InMemoryObjectStore { objects: Table::new(), max_memory_bytes };
        proof {
            lemma_seq_total_is_map_total(s.objects.key_seq(), s.objects.val_seq());
        }
        s
    }

    /// Get the total size of all stored objects.
    pub fn total_size(&self) -> (n: usize)
        requires
            self.wf(),
        ensures
            n == self.total_bytes(),
    {
        let ghost vs = self.objects.val_seq();
        proof {
            lemma_seq_total_is_map_total(self.objects.key_seq(), vs);
        }
        let len = self.objects.len();
        let mut total: usize = 0;
        let mut i: usize = 0;
        while i < len
            invariant
                self.objects.wf(),
                len == vs.len(),
                vs == self.objects.val_seq(),
                i <= len,
                seq_total(vs) <= usize::MAX,
                total == seq_total(vs.subrange(0, i as int)),
            decreases len - i,
        {
            let e = self.objects.val_at(i);
            proof {
                lemma_seq_total_prefix(vs, i as int);
                lemma_seq_total_prefix(vs, i as int + 1);
            }
            total = total + e.data.len();
            i = i + 1;
        }
        proof {
            assert(vs.subrange(0, len as int) =~= vs);
        }
        total
    }

    /// Get the number of stored objects.
    pub fn object_count(&self) -> (n: usize)
        requires
            self.wf(),
        ensures
            n == self@.dom().len(),
    {
        self.objects.len()
    }

    /// Whether an object with this id is stored.
    pub fn contains(&self, object_id: &ObjectId) -> (b: bool)
        requires
            self.wf(),
        ensures
            b == self@.contains_key(object_id@),
    {
        self.objects.contains_key(object_id)
    }

    /// Get a clone of an object entry (if it exists).
    pub fn get_entry(&self, object_id: &ObjectId) -> (r: Option<ObjectEntry>)
        requires
            self.wf(),
        ensures
            r is Some <==> self@.contains_key(object_id@),
            r is Some ==> same_entry(self@[object_id@], r->0),
    {
        match self.objects.get(object_id) {
            Some(e) => Some(e.clone()),
            None => None,
        }
    }

    /// Decrement the reference count (saturating at zero). Returns true if
    /// the object was evicted: its count reached zero and it was removed.
    pub fn remove_reference(&mut self, object_id: &ObjectId) -> (evicted: bool)
        requires
            old(self).wf(),
        ensures
            final(self).wf(),
            final(self).capacity() == old(self).capacity(),
            evicted == (old(self)@.contains_key(object_id@) && old(self)@[object_id@].ref_count <= 1),
            final(self)@ == after_remove_reference(old(self)@, object_id@),
            old(self).all_referenced() ==> final(self).all_referenced(),
    {
        match self.objects.find(object_id) {
            Some(i) => {
                let ghost ks = self.objects.key_seq();
                let ghost vs = self.objects.val_seq();
                proof {
                    lemma_map_of_at(ks, vs, i as int);
                    lemma_seq_total_is_map_total(ks, vs);
                }
                let rc = self.objects.val_at(i).ref_count;
                if rc <= 1 {
                    let _ = self.objects.remove(object_id);
                    proof {
                        assert(ks.index_of(object_id@) == i as int);
                        lemma_ids_match_remove(ks, vs, i as int);
                        lemma_map_total_insert(old(self).objects@, object_id@, vs[i as int]);
                    }
                    true
                } else {
                    let e = self.objects.val_at_mut(i);
                    e.ref_count = e.ref_count - 1;
                    proof {
                        let vs1 = self.objects.val_seq();
                        lemma_map_of_update(ks, vs, i as int, vs1[i as int]);
                        assert(vs1 == vs.update(i as int, vs1[i as int]));
                        lemma_ids_match_update(ks, vs, i as int, vs1[i as int]);
                        lemma_map_total_insert(old(self).objects@, ks[i as int], vs1[i as int]);
                    }
                    false
                }
            },
            None => false,
        }
    }

    /// Delete an object by id; deleting an absent object is not an error.
    pub fn delete(&mut self, object_id: &ObjectId) -> (r: RayResult<()>)
        requires
            old(self).wf(),
        ensures
            final(self).wf(),
            final(self).capacity() == old(self).capacity(),
            final(self)@ == old(self)@.remove(object_id@),
            r is Ok,
            old(self).all_referenced() ==> final(self).all_referenced(),
    {
        let ghost ks = self.objects.key_seq();
        let ghost vs = self.objects.val_seq();
        proof {
            lemma_seq_total_is_map_total(ks, vs);
        }
        let removed = self.objects.remove(object_id);
        proof {
            if removed is Some {
                let i = ks.index_of(object_id@);
                lemma_ids_match_remove(ks, vs, i);
                lemma_map_total_insert(old(self).objects@, object_id@, old(self).objects@[object_id@]);
            } else {
                assert(self.objects@ =~= old(self).objects@.remove(object_id@));
            }
        }
        Ok(())
    }

    /// Evict objects with zero reference count to free memory. Returns the
    /// number of objects evicted.
    pub fn evict_zero_ref_objects(&mut self) -> (evicted: usize)
        requires
            old(self).wf(),
        ensures
            final(self).wf(),
            final(self).capacity() == old(self).capacity(),
            final(self)@ == referenced_only(old(self)@),
            final(self).total_bytes() <= old(self).total_bytes(),
            evicted == old(self)@.dom().len() - final(self)@.dom().len(),
            final(self).all_referenced(),
            old(self).all_referenced() ==> evicted == 0,
    {
        let before = self.objects.len();
        let mut i: usize = 0;
        while i < self.objects.len()
            invariant
                self.wf(),
                self.capacity() == old(self).capacity(),
                i <= self.objects.key_seq().len(),
                map_total(self@) <= map_total(old(self)@),
                forall|q: int| 0 <= q < i ==> (#[trigger] self.objects.val_seq()[q]).ref_count > 0,
                forall|k: Seq<u8>| #[trigger] self@.contains_key(k) ==> old(self)@.contains_key(k) && self@[k] == old(self)@[k],
                forall|k: Seq<u8>| #[trigger] old(self)@.contains_key(k) && old(self)@[k].ref_count > 0 ==> self@.contains_key(k),
            decreases self.objects.key_seq().len() - i,
        {
            let ghost ks = self.objects.key_seq();
            let ghost vs = self.objects.val_seq();
            proof {
                lemma_map_of_at(ks, vs, i as int);
                lemma_seq_total_is_map_total(ks, vs);
            }
            if self.objects.val_at(i).ref_count == 0 {
                let k = self.objects.key_at(i).clone();
                let ghost m0 = self.objects@;
                let _ = self.objects.remove(&k);
                proof {
                    assert(ks.index_of(k@) == i as int);
                    lemma_ids_match_remove(ks, vs, i as int);
                    lemma_map_total_insert(m0, k@, vs[i as int]);
                    assert forall|q: int| 0 <= q < i implies (#[trigger] self.objects.val_seq()[q]).ref_count > 0 by {
                        assert(self.objects.val_seq()[q] == vs[q]);
                    }
                }
            } else {
                i = i + 1;
            }
        }
        proof {
            self.lemma_wf();
            assert forall|k: Seq<u8>| #[trigger] self@.contains_key(k) implies old(self)@[k].ref_count > 0 by {
                let j = self.objects.key_seq().index_of(k);
                lemma_map_of_at(self.objects.key_seq(), self.objects.val_seq(), j);
            }
            assert(self@ =~= referenced_only(old(self)@));
            lemma_map_of_len(self.objects.key_seq(), self.objects.val_seq());
        }
        let after = self.objects.len();
        proof {
            old(self).lemma_wf();
            vstd::set_lib::lemma_len_subset(self@.dom(), old(self)@.dom());
            if old(self).all_referenced() {
                law_referenced_store_evicts_nothing(old(self)@);
            }
        }
        before - after
    }

    /// Store an object (replacing any object with the same id) with
    /// reference count 1. With a positive budget, an object that would
    /// overflow it first triggers eviction of unreferenced objects; if it
    /// still does not fit, the store is left as the eviction made it and an
    /// `InsufficientResources` error is returned.
    pub fn put(&mut self, object_id: ObjectId, data: Vec<u8>) -> (r: RayResult<()>)
        requires
            old(self).wf(),
            old(self).total_bytes() + data@.len() <= usize::MAX,
        ensures
            final(self).wf(),
            final(self).capacity() == old(self).capacity(),
            ({
                let cap = old(self).capacity();
                let len = data@.len();
                let evicting = cap > 0 && old(self).total_bytes() + len > cap;
                let kept = if evicting { referenced_only(old(self)@) } else { old(self)@ };
                let full = evicting && map_total(kept) + len > cap;
                &&& full ==> final(self)@ == kept
                &&& full ==> (r matches Err(RayError::InsufficientResources(msg))
                    && msg@ == store_full_message(map_total(kept), len, cap as nat))
                &&& !full ==> r is Ok
                &&& !full ==> final(self)@ == kept.insert(object_id@, final(self)@[object_id@])
                &&& !full ==> final(self)@[object_id@].object_id == object_id
                &&& !full ==> final(self)@[object_id@].data@ == data@
                &&& !full ==> final(self)@[object_id@].ref_count == 1
                &&& !full ==> !final(self)@[object_id@].is_spilled
                &&& !full ==> final(self)@[object_id@].spill_url is None
                &&& !full && cap > 0 ==> final(self).total_bytes() <= cap
            }),
            old(self).all_referenced() ==> final(self).all_referenced(),
    {
        proof {
            lemma_seq_total_is_map_total(self.objects.key_seq(), self.objects.val_seq());
        }
        let len = data.len();
        if self.max_memory_bytes > 0 {
            let current = self.total_size();
            if current + len > self.max_memory_bytes {
                self.evict_zero_ref_objects();
                let current = self.total_size();
                if current + len > self.max_memory_bytes {
                    let mut msg = String::from_str("Object store full: ");
                    let t1 = usize_text(current);
                    let t2 = usize_text(len);
                    let t3 = usize_text(self.max_memory_bytes);
                    msg.append(t1.as_str());
                    msg.append(" + ");
                    msg.append(t2.as_str());
                    msg.append(" > ");
                    msg.append(t3.as_str());
                    msg.append(" bytes");
                    proof {
                        reveal_strlit("Object store full: ");
                        reveal_strlit(" + ");
                        reveal_strlit(" > ");
                        reveal_strlit(" bytes");
                    }
                    return Err(RayError::InsufficientResources(msg));
                }
            }
        }
        let ghost m1 = self.objects@;
        let ghost ks = self.objects.key_seq();
        let ghost vs = self.objects.val_seq();
        let entry = ObjectEntry {
            object_id: object_id.clone(),
            data,
            create_time: current_instant(),
            ref_count: 1,
            is_spilled: false,
            spill_url: None,
        };
        let ghost e = entry;
        self.objects.insert(object_id, entry);
        proof {
            lemma_seq_total_is_map_total(ks, vs);
            lemma_map_total_insert(m1, e.object_id@, e);
            if m1.contains_key(e.object_id@) {
                lemma_ids_match_update(ks, vs, ks.index_of(e.object_id@), e);
            } else {
                assert forall|j: int| 0 <= j < self.objects.key_seq().len()
                    implies (#[trigger] self.objects.val_seq()[j]).object_id@ == self.objects.key_seq()[j] by {
                    if j < ks.len() {
                        assert(self.objects.val_seq()[j] == vs[j]);
                        assert(self.objects.key_seq()[j] == ks[j]);
                    }
                }
            }
            assert(self.objects@ == m1.insert(e.object_id@, e));
        }
        Ok(())
    }

    /// One poll of a blocking get: the data if the object is present;
    /// otherwise a timeout error once the deadline has passed, and `None`
    /// (keep waiting) before that.
    pub fn poll_get(&self, object_id: &ObjectId, timeout_ms: i64, deadline_passed: bool) -> (r: Option<RayResult<Vec<u8>>>)
        requires
            self.wf(),
        ensures
            self@.contains_key(object_id@) ==> (r matches Some(Ok(d)) && Some(d@) == stored_data(self@, object_id@)),
            !self@.contains_key(object_id@) && deadline_passed ==> (r matches Some(Err(RayError::Timeout(m)))
                && m@ == timeout_message(object_id@, timeout_ms as int)),
            !self@.contains_key(object_id@) && !deadline_passed ==> r is None,
    {
        match self.objects.get(object_id) {
            Some(e) => Some(Ok(slice_to_vec(e.data.as_slice()))),
            None => {
                if deadline_passed {
                    let mut m = String::from_str("Object ");
                    let idt = object_id.debug_string();
                    let t = i64_text(timeout_ms);
                    m.append(idt.as_str());
                    m.append(" not available after ");
                    m.append(t.as_str());
                    m.append("ms");
                    proof {
                        reveal_strlit("Object ");
                        reveal_strlit(" not available after ");
                        reveal_strlit("ms");
                    }
                    Some(Err(RayError::Timeout(m)))
                } else {
                    None
                }
            },
        }
    }

    /// One poll of a wait: the readiness flags of `object_ids` once at least
    /// `num_ready` of them are present (count compared as `i32`) or the
    /// deadline has passed; `None` (keep waiting) otherwise.
    pub fn poll_wait(&self, object_ids: &[ObjectId], num_ready: i32, deadline_passed: bool) -> (r: Option<Vec<bool>>)
        requires
            self.wf(),
        ensures
            ({
                let flags = Seq::new(object_ids@.len(), |i: int| self@.contains_key(object_ids@[i]@));
                &&& (((count_true(flags) as i32) >= num_ready || deadline_passed) ==> (r matches Some(v) && v@ == flags))
                &&& (!((count_true(flags) as i32) >= num_ready || deadline_passed) ==> r is None)
            }),
    {
        let ghost flags = Seq::new(object_ids@.len(), |i: int| self@.contains_key(object_ids@[i]@));
        let mut ready: Vec<bool> = Vec::new();
        let mut count: usize = 0;
        let mut i: usize = 0;
        while i < object_ids.len()
            invariant
                self.wf(),
                i <= object_ids@.len(),
                flags == Seq::new(object_ids@.len(), |i: int| self@.contains_key(object_ids@[i]@)),
                ready@ == flags.subrange(0, i as int),
                count == count_true(ready@),
                count <= i,
            decreases object_ids@.len() - i,
        {
            let b = self.objects.contains_key(&object_ids[i]);
            let ghost prev = ready@;
            ready.push(b);
            proof {
                assert(ready@.drop_last() == prev);
                assert(ready@ =~= flags.subrange(0, i as int + 1));
            }
            if b {
                count = count + 1;
            }
            i = i + 1;
        }
        proof {
            assert(ready@ =~= flags);
        }
        let done = (count as i32) >= num_ready || deadline_passed;
        if done {
            Some(ready)
        } else {
            None
        }
    }

    /// The data to write out when spilling an object, or `ObjectNotFound`
    /// with the object's debug form.
    pub fn spill_data(&self, object_id: &ObjectId) -> (r: RayResult<Vec<u8>>)
        requires
            self.wf(),
        ensures
            self@.contains_key(object_id@) ==> (r matches Ok(d) && d@ == self@[object_id@].data@),
            !self@.contains_key(object_id@) ==> (r matches Err(RayError::ObjectNotFound(m))
                && m@ == object_id_text(object_id@)),
    {
        match self.objects.get(object_id) {
            Some(e) => Ok(slice_to_vec(e.data.as_slice())),
            None => Err(RayError::ObjectNotFound(object_id.debug_string())),
        }
    }

    /// Records that an object's data now lives in its spill file in `dir`
    /// (see `spill_path`), and returns that file's path.
    pub fn mark_spilled(&mut self, object_id: &ObjectId, dir: &str) -> (p: String)
        requires
            old(self).wf(),
        ensures
            final(self).wf(),
            final(self).capacity() == old(self).capacity(),
            p@ == joined(dir@, spill_file_text(object_id@)),
            old(self)@.contains_key(object_id@) ==> final(self)@ == old(self)@.insert(
                object_id@,
                spilled(old(self)@[object_id@], p),
            ),
            !old(self)@.contains_key(object_id@) ==> final(self)@ == old(self)@,
            old(self).all_referenced() ==> final(self).all_referenced(),
    {
        let url = spill_path(dir, object_id);
        let p = url.clone();
        match self.objects.find(object_id) {
            Some(i) => {
                let ghost ks = self.objects.key_seq();
                let ghost vs = self.objects.val_seq();
                proof {
                    lemma_map_of_at(ks, vs, i as int);
                    lemma_seq_total_is_map_total(ks, vs);
                }
                let e = self.objects.val_at_mut(i);
                e.is_spilled = true;
                e.spill_url = Some(url);
                proof {
                    let vs1 = self.objects.val_seq();
                    lemma_map_of_update(ks, vs, i as int, vs1[i as int]);
                    assert(vs1 == vs.update(i as int, vs1[i as int]));
                    lemma_ids_match_update(ks, vs, i as int, vs1[i as int]);
                    lemma_map_total_insert(old(self).objects@, ks[i as int], vs1[i as int]);
                    lemma_map_total_insert(old(self).objects@, ks[i as int], vs[i as int]);
                }
            },
            None => {},
        }
        p
    }

    /// Where a spilled object's data was written; `ObjectNotFound` with the
    /// debug form if the object is unknown, or with " not spilled" appended if
    /// it has no spill location.
    pub fn spill_location(&self, object_id: &ObjectId) -> (r: RayResult<String>)
        requires
            self.wf(),
        ensures
            !self@.contains_key(object_id@) ==> (r matches Err(RayError::ObjectNotFound(m))
                && m@ == object_id_text(object_id@)),
            self@.contains_key(object_id@) && self@[object_id@].spill_url is None ==> (r matches Err(
                RayError::ObjectNotFound(m),
            ) && m@ == object_id_text(object_id@) + " not spilled"@),
            self@.contains_key(object_id@) && self@[object_id@].spill_url is Some ==> (r matches Ok(u)
                && u == self@[object_id@].spill_url->0),
    {
        match self.objects.get(object_id) {
            Some(e) => match &e.spill_url {
                Some(u) => Ok(u.clone()),
                None => {
                    let mut m = object_id.debug_string();
                    m.append(" not spilled");
                    proof {
                        reveal_strlit(" not spilled");
                    }
                    Err(RayError::ObjectNotFound(m))
                },
            },
            None => Err(RayError::ObjectNotFound(object_id.debug_string())),
        }
    }

    /// Records that an object's data was read back from its spill file.
    pub fn mark_restored(&mut self, object_id: &ObjectId, data: Vec<u8>)
        requires
            old(self).wf(),
            old(self)@.contains_key(object_id@) ==> map_total(old(self)@.remove(object_id@)) + data@.len() <= usize::MAX,
        ensures
            final(self).wf(),
            final(self).capacity() == old(self).capacity(),
            old(self)@.contains_key(object_id@) ==> final(self)@ == old(self)@.insert(
                object_id@,
                restored(old(self)@[object_id@], data),
            ),
            !old(self)@.contains_key(object_id@) ==> final(self)@ == old(self)@,
            old(self).all_referenced() ==> final(self).all_referenced(),
    {
        match self.objects.find(object_id) {
            Some(i) => {
                let ghost ks = self.objects.key_seq();
                let ghost vs = self.objects.val_seq();
                proof {
                    lemma_map_of_at(ks, vs, i as int);
                    lemma_seq_total_is_map_total(ks, vs);
                }
                let e = self.objects.val_at_mut(i);
                e.data = data;
                e.is_spilled = false;
                e.spill_url = None;
                proof {
                    let vs1 = self.objects.val_seq();
                    lemma_map_of_update(ks, vs, i as int, vs1[i as int]);
                    assert(vs1 == vs.update(i as int, vs1[i as int]));
                    lemma_ids_match_update(ks, vs, i as int, vs1[i as int]);
                    lemma_map_total_insert(old(self).objects@, ks[i as int], vs1[i as int]);
                }
            },
            None => {},
        }
    }

    /// Increment the reference count for an object; an unknown id is ignored.
    pub fn add_reference(&mut self, object_id: &ObjectId)
        requires
            old(self).wf(),
            old(self)@.contains_key(object_id@) ==> old(self)@[object_id@].ref_count < u32::MAX,
        ensures
            final(self).wf(),
            final(self).capacity() == old(self).capacity(),
            final(self)@ == after_add_reference(old(self)@, object_id@),
            old(self).all_referenced() ==> final(self).all_referenced(),
    {
        match self.objects.find(object_id) {
            Some(i) => {
                proof {
                    lemma_map_of_at(self.objects.key_seq(), self.objects.val_seq(), i as int);
                    lemma_seq_total_is_map_total(self.objects.key_seq(), self.objects.val_seq());
                }
                let ghost ks = self.objects.key_seq();
                let ghost vs = self.objects.val_seq();
                let e = self.objects.val_at_mut(i);
                e.ref_count = e.ref_count + 1;
                proof {
                    let vs1 = self.objects.val_seq();
                    lemma_map_of_update(ks, vs, i as int, vs1[i as int]);
                    assert(vs1 == vs.update(i as int, vs1[i as int]));
                    lemma_seq_total_is_map_total(ks, vs1);
                    lemma_seq_total_is_map_total(ks, vs);
                    lemma_map_total_remove(self.objects@, ks[i as int]);
                    lemma_map_total_remove(old(self).objects@, ks[i as int]);
                    assert(self.objects@.remove(ks[i as int]) =~= old(self).objects@.remove(ks[i as int]));
                    lemma_ids_match_update(ks, vs, i as int, vs1[i as int]);
                }
            },
            None => {},
        }
    }
}

/// The path of the file `name` in directory `dir`: the name alone for an
/// empty directory; otherwise the directory, a '/' unless it already ends
/// with one, and the name.
pub open spec fn joined(dir: Seq<char>, name: Seq<char>) -> Seq<char> {
    if dir.len() == 0 || dir.last() == '/' {
        dir + name
    } else {
        dir + "/"@ + name
    }
}

/// The path of an object's spill file in the directory `dir`.
pub fn spill_path(dir: &str, object_id: &ObjectId) -> (p: String)
    ensures
        p@ == joined(dir@, spill_file_text(object_id@)),
{
    let mut p = String::from_str(dir);
    let n = dir.unicode_len();
    if n > 0 && dir.get_char(n - 1) != '/' {
        p.append("/");
    }
    let name = spill_file_name(object_id);
    p.append(name.as_str());
    proof {
        reveal_strlit("/");
    }
    p
}

/// The first `n` items whose flag is `want`, in order.
pub open spec fn flagged_prefix<T>(items: Seq<T>, flags: Seq<bool>, want: bool, n: nat) -> Seq<T>
    decreases n,
{
    if n == 0 {
        Seq::empty()
    } else {
        let rest = flagged_prefix(items, flags, want, (n - 1) as nat);
        if flags[n - 1] == want {
            rest.push(items[n - 1])
        } else {
            rest
        }
    }
}

/// The items whose flag is `want`, in order; items past the last flag (and
/// flags past the last item) are left out.
pub open spec fn flagged<T>(items: Seq<T>, flags: Seq<bool>, want: bool) -> Seq<T> {
    let n = if items.len() <= flags.len() { items.len() } else { flags.len() };
    flagged_prefix(items, flags, want, n)
}

/// The first `n` items paired with their flags, position by position.
pub open spec fn pairs_upto<T>(items: Seq<T>, flags: Seq<bool>, n: nat) -> Seq<(T, bool)> {
    Seq::new(n, |i: int| (items[i], flags[i]))
}

/// Taking the items whose flag is `want` from the first `n` positions is
/// vstd's filter of the paired items by that flag.
proof fn lemma_flagged_prefix_is_filter<T>(items: Seq<T>, flags: Seq<bool>, want: bool, n: nat)
    requires
        n <= items.len(),
        n <= flags.len(),
    ensures
        flagged_prefix(items, flags, want, n) == pairs_upto(items, flags, n).filter(|x: (T, bool)| x.1 == want).map_values(
            |x: (T, bool)| x.0,
        ),
    decreases n,
{
    let pred = |x: (T, bool)| x.1 == want;
    let fst = |x: (T, bool)| x.0;
    let s = pairs_upto(items, flags, n);
    reveal(Seq::filter);
    if n == 0 {
        assert(s.filter(pred) =~= Seq::<(T, bool)>::empty());
        assert(s.filter(pred).map_values(fst) =~= Seq::<T>::empty());
    } else {
        let m = (n - 1) as nat;
        lemma_flagged_prefix_is_filter(items, flags, want, m);
        assert(s.drop_last() =~= pairs_upto(items, flags, m));
        let sub = pairs_upto(items, flags, m).filter(pred);
        if pred(s.last()) {
            assert(s.filter(pred) == sub.push(s.last()));
            assert(sub.push(s.last()).map_values(fst) =~= sub.map_values(fst).push(items[n - 1]));
        } else {
            assert(s.filter(pred) == sub);
        }
    }
}

/// Splitting keeps input order: the ready list is exactly the items whose
/// flag is true and the not-ready list those whose flag is false, each as
/// vstd's filter of the items paired with their flags (as far as both go),
/// so an item that comes before another in the input comes before it in its
/// list.
pub proof fn law_split_keeps_input_order<T>(items: Seq<T>, flags: Seq<bool>)
    ensures
        ({
            let n = if items.len() <= flags.len() { items.len() } else { flags.len() };
            &&& flagged(items, flags, true) == pairs_upto(items, flags, n).filter(|x: (T, bool)| x.1).map_values(
                |x: (T, bool)| x.0,
            )
            &&& flagged(items, flags, false) == pairs_upto(items, flags, n).filter(|x: (T, bool)| !x.1).map_values(
                |x: (T, bool)| x.0,
            )
        }),
{
    let n = if items.len() <= flags.len() { items.len() } else { flags.len() };
    lemma_flagged_prefix_is_filter(items, flags, true, n);
    lemma_flagged_prefix_is_filter(items, flags, false, n);
    let s = pairs_upto(items, flags, n);
    assert(s.filter(|x: (T, bool)| x.1 == true) =~= s.filter(|x: (T, bool)| x.1)) by {
        assert((|x: (T, bool)| x.1 == true) =~= (|x: (T, bool)| x.1));
    }
    assert(s.filter(|x: (T, bool)| x.1 == false) =~= s.filter(|x: (T, bool)| !x.1)) by {
        assert((|x: (T, bool)| x.1 == false) =~= (|x: (T, bool)| !x.1));
    }
}

/// Splits the objects waited on by their readiness flags (as returned by a
/// wait): the ready ones and the others, each in the order given. Items
/// and flags are paired up by position, as far as both go.
pub fn split_ready<T>(items: Vec<T>, flags: &[bool]) -> (r: (Vec<T>, Vec<T>))
    ensures
        r.0@ == flagged(items@, flags@, true),
        r.1@ == flagged(items@, flags@, false),
        ({
            let n = if items@.len() <= flags@.len() { items@.len() } else { flags@.len() };
            &&& r.0@ == pairs_upto(items@, flags@, n).filter(|x: (T, bool)| x.1).map_values(|x: (T, bool)| x.0)
            &&& r.1@ == pairs_upto(items@, flags@, n).filter(|x: (T, bool)| !x.1).map_values(|x: (T, bool)| x.0)
        }),
{
    proof {
        law_split_keeps_input_order(items@, flags@);
    }
    let ghost all = items@;
    let n = if items.len() <= flags.len() { items.len() } else { flags.len() };
    let mut items = items;
    items.truncate(n);
    let ghost kept = items@;
    assert(kept =~= all.subrange(0, n as int));
    let mut ready: Vec<T> = Vec::new();
    let mut not_ready: Vec<T> = Vec::new();
    let mut i: usize = 0;
    for x in it: items
        invariant
            it.seq() == kept,
            i == it.index(),
            kept.len() == n,
            n <= flags@.len(),
            n <= all.len(),
            kept == all.subrange(0, n as int),
            ready@ == flagged_prefix(all, flags@, true, i as nat),
            not_ready@ == flagged_prefix(all, flags@, false, i as nat),
    {
        assert(x == all[i as int]);
        if flags[i] {
            ready.push(x);
        } else {
            not_ready.push(x);
        }
        i = i + 1;
    }
    (ready, not_ready)
}

/// The file name under which an object is spilled: its full id in
/// hexadecimal followed by ".bin".
pub fn spill_file_name(object_id: &ObjectId) -> (s: String)
    ensures
        s@ == spill_file_text(object_id@),
{
    let v = object_id.to_vec();
    let mut s = encode(v.as_slice());
    s.append(".bin");
    proof {
        reveal_strlit(".bin");
    }
    s
}

} // verus!
