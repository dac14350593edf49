//! Zero-copy access to byte buffers such as shared-memory regions.

use vstd::prelude::*;
use vstd::string::*;
use crate::error::{RayError, RayResult};
use crate::text::{dec_text, usize_text};

verus! {

/// The error text of an out-of-bounds write.
pub open spec fn out_of_bounds_text(offset: nat, len: nat, buffer: nat) -> Seq<char> {
    "write out of bounds: offset "@ + dec_text(offset) + " + len "@ + dec_text(len) + " > buffer "@ + dec_text(buffer)
}

/// `buf` with `data` copied over the bytes starting at `offset`.
pub open spec fn overwritten(buf: Seq<u8>, offset: int, data: Seq<u8>) -> Seq<u8> {
    Seq::new(buf.len(), |i: int| if offset <= i < offset + data.len() { data[i - offset] } else { buf[i] })
}

/// Copies `data` into `buf` at `offset`, or reports (and changes nothing)
/// when it would not fit.
pub fn write_into(buf: &mut [u8], offset: usize, data: &[u8]) -> (r: RayResult<()>)
    requires
        offset + data@.len() <= usize::MAX,
    ensures
        offset + data@.len() <= old(buf)@.len() ==> r is Ok && final(buf)@ == overwritten(
            old(buf)@,
            offset as int,
            data@,
        ),
        offset + data@.len() > old(buf)@.len() ==> (r matches Err(RayError::SharedMemoryError(m)) && m@
            == out_of_bounds_text(offset as nat, data@.len(), old(buf)@.len())) && final(buf)@ == old(buf)@,
{
    let end = offset + data.len();
    if end > buf.len() {
        let mut m = String::from_str("write out of bounds: offset ");
        let t1 = usize_text(offset);
        let t2 = usize_text(data.len());
        let t3 = usize_text(buf.len());
        m.append(t1.as_str());
        m.append(" + len ");
        m.append(t2.as_str());
        m.append(" > buffer ");
        m.append(t3.as_str());
        proof {
            reveal_strlit("write out of bounds: offset ");
            reveal_strlit(" + len ");
            reveal_strlit(" > buffer ");
        }
        return Err(RayError::SharedMemoryError(m));
    }
    let ghost b0 = buf@;
    let mut i: usize = 0;
    while i < data.len()
        invariant
            i <= data@.len(),
            offset + data@.len() <= buf@.len(),
            offset + data@.len() <= usize::MAX,
            buf@.len() == b0.len(),
            forall|j: int| 0 <= j < buf@.len() ==> #[trigger] buf@[j] == if offset <= j < offset + i {
                data@[j - offset]
            } else {
                b0[j]
            },
        decreases data@.len() - i,
    {
        buf[offset + i] = data[i];
        i = i + 1;
    }
    assert(buf@ =~= overwritten(b0, offset as int, data@));
    Ok(())
}

/// Objects that can expose their bytes without copying.
pub trait ZeroCopyRead {
    /// The bytes the object exposes.
    spec fn data(&self) -> Seq<u8>;

    /// Get a reference to the underlying bytes without copying.
    fn as_bytes(&self) -> (b: &[u8])
        ensures
            b@ == self.data(),
    ;

    /// Get the size of the data in bytes.
    fn len(&self) -> (n: usize)
        ensures
            n == self.data().len(),
    {
        self.as_bytes().len()
    }

    /// Check if the data is empty.
    fn is_empty(&self) -> (b: bool)
        ensures
            b == (self.data().len() == 0),
    {
        self.len() == 0
    }
}

/// Objects that support writing data in place into a pre-allocated buffer.
pub trait ZeroCopyWrite {
    /// The current contents of the buffer.
    spec fn buffer(&self) -> Seq<u8>;

    /// Get a mutable reference to the underlying buffer.
    fn as_bytes_mut(&mut self) -> (b: &mut [u8])
        ensures
            b@ == old(self).buffer(),
            final(self).buffer() == final(b)@,
    ;

    /// Write data into the buffer at the given offset; an out-of-bounds
    /// write changes nothing and reports the offending sizes.
    fn write_at(&mut self, offset: usize, data: &[u8]) -> (r: RayResult<()>)
        requires
            offset + data@.len() <= usize::MAX,
        ensures
            offset + data@.len() <= old(self).buffer().len() ==> r is Ok && final(self).buffer() == overwritten(
                old(self).buffer(),
                offset as int,
                data@,
            ),
            offset + data@.len() > old(self).buffer().len() ==> (r matches Err(RayError::SharedMemoryError(m))
                && m@ == out_of_bounds_text(offset as nat, data@.len(), old(self).buffer().len()))
                && final(self).buffer() == old(self).buffer(),
    {
        let buf = self.as_bytes_mut();
        write_into(buf, offset, data)
    }
}

} // verus!
