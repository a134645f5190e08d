//! The transaction buffers that a capture records beside each write/read ioctl.
use vstd::prelude::*;

use crate::binder::{read_u64_at, u64_at, BwrError};

verus! {

/// Byte size of the driver's `binder_write_read` record: six 64-bit words.
pub const BWR_SIZE: usize = 48;

/// A copied transaction buffer: what was captured of it, and how large it was.
#[derive(Debug, Clone)]
pub struct BinderTransactionData {
    pub total_size: usize,
    pub data: Vec<u8>,
}

/// Which buffer of a transaction a capture holds.
#[derive(Debug, Clone)]
pub enum BinderTransactionContents {
    Data(BinderTransactionData),
    Offsets(BinderTransactionData),
}

impl BinderTransactionContents {
    /// Parses a write/read record followed by the captured buffer. A write buffer
    /// marked 1 means the data buffer; otherwise a read buffer marked 1 means the
    /// offsets buffer. The total size is the write (or read) size.
    pub fn from_bytes(value: &[u8]) -> (r: Result<BinderTransactionContents, BwrError>)
        ensures
            value@.len() < BWR_SIZE ==> r == Err::<BinderTransactionContents, _>(BwrError::TooShort),
            value@.len() >= BWR_SIZE && u64_at(value@, 16) == 1 ==> (r matches Ok(
                BinderTransactionContents::Data(d),
            ) && d.total_size == u64_at(value@, 0) as usize && d.data@ == value@.subrange(
                BWR_SIZE as int,
                value@.len() as int,
            )),
            value@.len() >= BWR_SIZE && u64_at(value@, 16) != 1 && u64_at(value@, 40) == 1 ==> (
            r matches Ok(BinderTransactionContents::Offsets(d)) && d.total_size == u64_at(value@, 24)
                as usize && d.data@ == value@.subrange(BWR_SIZE as int, value@.len() as int)),
            value@.len() >= BWR_SIZE && u64_at(value@, 16) != 1 && u64_at(value@, 40) != 1 ==> r
                == Err::<BinderTransactionContents, _>(BwrError::NotTransactionContents),
    {
        if value.len() < BWR_SIZE {
            return Err(BwrError::TooShort);
        }
        let write_size = read_u64_at(value, 0);
        let write_buffer = read_u64_at(value, 16);
        let read_size = read_u64_at(value, 24);
        let read_buffer = read_u64_at(value, 40);
        if write_buffer == 1 {
            let data = tail(value, BWR_SIZE);
            return Ok(
                BinderTransactionContents::Data(
                    BinderTransactionData { total_size: write_size as usize, data },
                ),
            );
        } else if read_buffer == 1 {
            let data = tail(value, BWR_SIZE);
            return Ok(
                BinderTransactionContents::Offsets(
                    BinderTransactionData { total_size: read_size as usize, data },
                ),
            );
        }
        Err(BwrError::NotTransactionContents)
    }
}

/// The bytes of `v` from `start` on.
fn tail(v: &[u8], start: usize) -> (r: Vec<u8>)
    requires
        start <= v@.len(),
    ensures
        r@ == v@.subrange(start as int, v@.len() as int),
{
    let mut out: Vec<u8> = Vec::new();
    let mut i: usize = start;
    while i < v.len()
        invariant
            start <= i <= v@.len(),
            out@ == v@.subrange(start as int, i as int),
        decreases v@.len() - i,
    {
        out.push(v[i]);
        i = i + 1;
        assert(out@ =~= v@.subrange(start as int, i as int));
    }
    out
}

} // verus!
