//! Named shared-memory regions for cross-process zero-copy object sharing,
//! and the pool that allocates them under generated names.

use vstd::prelude::*;
use vstd::string::*;
use crate::error::{RayError, RayResult};
use crate::table::Table;
use crate::text::{dec_text, u64_text};

verus! {

/// `shared_memory::Shmem`, an OS shared-memory mapping.
#[verifier::external_type_specification]
#[verifier::external_body]
pub struct ExShmem(shared_memory::Shmem);

/// The OS identifier of a mapping, as `shared_memory::Shmem::get_os_id`
/// returns it.
pub uninterp spec fn shmem_os_id(m: shared_memory::Shmem) -> Seq<char>;

/// The length in bytes of a mapping, as `shared_memory::Shmem::len` returns
/// it.
pub uninterp spec fn shmem_len(m: shared_memory::Shmem) -> usize;

/// Creates a mapping of `size` bytes with OS id `name` through
/// `shared_memory::ShmemConf::new().size(size).os_id(name).create()`, with a
/// failure rendered by the error's derived `Debug`. Whether it succeeds
/// depends on the operating system. The crate's source fixes two things:
/// a zero size is refused with `ShmemError::MapSizeZero` (rendered
/// "MapSizeZero"); and a mapping it creates is made under the given OS id
/// with exactly the requested length (its Unix implementation, used on
/// Linux, macOS and FreeBSD, records both arguments as they are).
#[verifier::external_body]
fn shmem_create(name: &str, size: usize) -> (r: Result<shared_memory::Shmem, String>)
    ensures
        size == 0 ==> r is Err && r->Err_0@ == "MapSizeZero"@,
        r is Ok ==> shmem_os_id(r->Ok_0) == name@ && shmem_len(r->Ok_0) == size,
{
    match shared_memory::ShmemConf::new().size(size).os_id(name).create() {
        Ok(m) => Ok(m),
        Err(e) => Err(format!("{:?}", e)),
    }
}

/// Opens the existing mapping with OS id `name` through
/// `shared_memory::ShmemConf::new().os_id(name).open()`, with a failure
/// rendered by the error's derived `Debug`. Whether it succeeds, which error
/// it reports and the length of the mapping depend on the operating system;
/// what the crate's source fixes is that a mapping it opens carries the
/// given OS id.
#[verifier::external_body]
fn shmem_open(name: &str) -> (r: Result<shared_memory::Shmem, String>)
    ensures
        r is Ok ==> shmem_os_id(r->Ok_0) == name@,
{
    match shared_memory::ShmemConf::new().os_id(name).open() {
        Ok(m) => Ok(m),
        Err(e) => Err(format!("{:?}", e)),
    }
}

/// A shared memory region that can be accessed across processes.
pub struct ShmRegion {
    name: String,
    size: usize,
    inner: shared_memory::Shmem,
}

/// `m` is `prefix` followed by some (error-specific) text.
pub open spec fn starts_with(m: Seq<char>, prefix: Seq<char>) -> bool {
    prefix.len() <= m.len() && m.subrange(0, prefix.len() as int) == prefix
}

impl ShmRegion {
    /// Unique name of the shared memory segment.
    pub closed spec fn name_view(&self) -> Seq<char> {
        self.name@
    }

    /// Size of the region in bytes, as requested.
    pub closed spec fn size_view(&self) -> usize {
        self.size
    }

    /// The OS identifier of the mapping behind the region.
    pub closed spec fn mapping_os_id(&self) -> Seq<char> {
        shmem_os_id(self.inner)
    }

    /// The length in bytes of the mapping behind the region.
    pub closed spec fn mapping_len(&self) -> usize {
        shmem_len(self.inner)
    }

    /// Create a new shared memory region with the given name and size.
    pub fn create(name: &str, size: usize) -> (r: RayResult<Self>)
        ensures
            r matches Ok(region) ==> region.name_view() == name@ && region.size_view() == size
                && region.mapping_os_id() == name@ && region.mapping_len() == size,
            r matches Err(e) ==> (e matches RayError::SharedMemoryError(m) && starts_with(m@, "create failed: "@)),
            size == 0 ==> (r matches Err(RayError::SharedMemoryError(m)) && m@ == "create failed: MapSizeZero"@),
    {
        match shmem_create(name, size) {
            Ok(shmem) => Ok(ShmRegion { name: String::from_str(name), size, inner: shmem }),
            Err(e) => {
                let mut m = String::from_str("create failed: ");
                let ghost prefix = m@;
                m.append(e.as_str());
                proof {
                    reveal_strlit("create failed: ");
                    assert(m@.subrange(0, prefix.len() as int) =~= prefix);
                    if size == 0 {
                        reveal_strlit("MapSizeZero");
                        reveal_strlit("create failed: MapSizeZero");
                        assert(m@ =~= "create failed: MapSizeZero"@);
                    }
                }
                Err(RayError::SharedMemoryError(m))
            },
        }
    }

    /// Open an existing shared memory region by name.
    pub fn open(name: &str, size: usize) -> (r: RayResult<Self>)
        ensures
            r matches Ok(region) ==> region.name_view() == name@ && region.size_view() == size
                && region.mapping_os_id() == name@,
            r matches Err(e) ==> (e matches RayError::SharedMemoryError(m) && starts_with(m@, "open failed: "@)),
    {
        match shmem_open(name) {
            Ok(shmem) => Ok(ShmRegion { name: String::from_str(name), size, inner: shmem }),
            Err(e) => {
                let mut m = String::from_str("open failed: ");
                let ghost prefix = m@;
                m.append(e.as_str());
                proof {
                    reveal_strlit("open failed: ");
                    assert(m@.subrange(0, prefix.len() as int) =~= prefix);
                }
                Err(RayError::SharedMemoryError(m))
            },
        }
    }

    /// Get the name of this shared memory region.
    pub fn name(&self) -> (n: &str)
        ensures
            n@ == self.name_view(),
    {
        self.name.as_str()
    }
}

/// The name of the `n`-th region of a pool rooted at `base`: `{base}_{n}`.
pub open spec fn region_name(base: Seq<char>, n: nat) -> Seq<char> {
    base + "_"@ + dec_text(n)
}

/// Pool of shared memory regions, used by the object store to allocate
/// and manage cross-process accessible buffers.
pub struct ShmPool {
    regions: Table<String, ShmRegion>,
    base_dir: String,
    next_id: u64,
}

impl ShmPool {
    /// The live regions by name.
    pub closed spec fn regions_map(&self) -> Map<Seq<char>, ShmRegion> {
        self.regions@
    }

    /// The prefix of generated region names.
    pub closed spec fn base(&self) -> Seq<char> {
        self.base_dir@
    }

    /// The number the next allocated region will carry.
    pub closed spec fn next_number(&self) -> u64 {
        self.next_id
    }

    /// The table is well formed and every region is filed under its own name.
    pub closed spec fn wf(&self) -> bool {
        &&& self.regions.wf()
        &&& forall|k: Seq<char>| #[trigger] self.regions@.contains_key(k) ==> self.regions@[k].name_view() == k
            && self.regions@[k].mapping_os_id() == k
    }

    /// Every live region sits under its own name.
    pub proof fn lemma_regions_named(&self)
        requires
            self.wf(),
        ensures
            forall|k: Seq<char>| #[trigger] self.regions_map().contains_key(k) ==> self.regions_map()[k].name_view() == k
                && self.regions_map()[k].mapping_os_id() == k,
    {
    }

    /// Create a new shared memory pool.
    pub fn new(base_dir: &str) -> (p: Self)
        ensures
            p.wf(),
            p.regions_map() == Map::<Seq<char>, ShmRegion>::empty(),
            p.base() == base_dir@,
            p.next_number() == 0,
    {
        ShmPool { regions: Table::new(), base_dir: String::from_str(base_dir), next_id: 0 }
    }

    /// Allocate a new shared memory region named `{base}_{n}` for the next
    /// number `n`, and return its name. The number is used up even when the
    /// region cannot be created.
    pub fn allocate(&mut self, size: usize) -> (r: RayResult<String>)
        requires
            old(self).wf(),
            old(self).next_number() < u64::MAX,
        ensures
            final(self).wf(),
            final(self).base() == old(self).base(),
            final(self).next_number() == old(self).next_number() + 1,
            r matches Ok(name) ==> name@ == region_name(old(self).base(), old(self).next_number() as nat)
                && final(self).regions_map().dom() == old(self).regions_map().dom().insert(name@)
                && final(self).regions_map() == old(self).regions_map().insert(name@, final(self).regions_map()[name@])
                && final(self).regions_map()[name@].name_view() == name@
                && final(self).regions_map()[name@].size_view() == size
                && final(self).regions_map()[name@].mapping_os_id() == name@
                && final(self).regions_map()[name@].mapping_len() == size,
            r matches Err(e) ==> (e matches RayError::SharedMemoryError(m) && starts_with(m@, "create failed: "@))
                && final(self).regions_map() == old(self).regions_map(),
            size == 0 ==> (r matches Err(RayError::SharedMemoryError(m)) && m@ == "create failed: MapSizeZero"@),
    {
        let mut name = self.base_dir.clone();
        name.append("_");
        let num = u64_text(self.next_id);
        name.append(num.as_str());
        proof {
            reveal_strlit("_");
        }
        self.next_id = self.next_id + 1;
        let region = ShmRegion::create(name.as_str(), size)?;
        let key = name.clone();
        self.regions.insert(key, region);
        Ok(name)
    }

    /// Get a reference to an existing region by name.
    pub fn get(&self, name: &str) -> (r: Option<&ShmRegion>)
        requires
            self.wf(),
        ensures
            match r {
                Some(region) => self.regions_map().contains_key(name@) && *region == self.regions_map()[name@]
                    && region.name_view() == name@ && region.mapping_os_id() == name@,
                None => !self.regions_map().contains_key(name@),
            },
    {
        let key = String::from_str(name);
        self.regions.get(&key)
    }

    /// Release a shared memory region (an unknown name is ignored).
    pub fn release(&mut self, name: &str)
        requires
            old(self).wf(),
        ensures
            final(self).wf(),
            final(self).regions_map() == old(self).regions_map().remove(name@),
            final(self).base() == old(self).base(),
            final(self).next_number() == old(self).next_number(),
    {
        let key = String::from_str(name);
        let _ = self.regions.remove(&key);
    }
}

} // verus!
