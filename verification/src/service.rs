//! The loading service's bookkeeping: whether a file is being read, and a
//! request to stop reading it.
use vstd::prelude::*;

verus! {

/// Whether a file is being read, and whether stopping it was asked for.
#[derive(Debug)]
pub struct LoadFlags {
    pub cancel: bool,
    pub loading: bool,
}

impl LoadFlags {
    pub fn new() -> (f: Self)
        ensures
            !f.cancel,
            !f.loading,
    {
        LoadFlags { cancel: false, loading: false }
    }

    /// Reading a file started.
    pub fn start_loading(&mut self)
        ensures
            final(self).loading,
            final(self).cancel == old(self).cancel,
    {
        self.loading = true;
    }

    /// Stopping was asked for: it is noted only while a file is read and no
    /// request is pending. Returns whether it was noted.
    pub fn request_cancel(&mut self) -> (noted: bool)
        ensures
            noted == (!old(self).cancel && old(self).loading),
            final(self).cancel == (old(self).cancel || old(self).loading),
            final(self).loading == old(self).loading,
    {
        if !self.cancel && self.loading {
            self.cancel = true;
            true
        } else {
            false
        }
    }

    /// The reader looks for a request to stop after each chunk; a request is
    /// consumed when found.
    pub fn take_cancel(&mut self) -> (stop: bool)
        ensures
            stop == old(self).cancel,
            !final(self).cancel,
            final(self).loading == old(self).loading,
    {
        let stop = self.cancel;
        self.cancel = false;
        stop
    }

    /// The data of the file arrived (or reading ended).
    pub fn data_ready(&mut self)
        ensures
            !final(self).loading,
            final(self).cancel == old(self).cancel,
    {
        self.loading = false;
    }
}

/// Copies a chunk of `len` bytes read into `buf` to `data` at `count`.
pub fn copy_chunk(data: &mut Vec<u8>, count: usize, buf: &[u8], len: usize)
    requires
        len <= buf@.len(),
        count + len <= old(data)@.len(),
    ensures
        final(data)@ == old(data)@.subrange(0, count as int) + buf@.subrange(0, len as int)
            + old(data)@.subrange(count + len, old(data)@.len() as int),
{
    let n: usize = data.len();
    let mut k: usize = 0;
    while k < len
        invariant
            n == data@.len(),
            k <= len,
            len <= buf@.len(),
            count + len <= data@.len(),
            data@.len() == old(data)@.len(),
            data@ == old(data)@.subrange(0, count as int) + buf@.subrange(0, k as int)
                + old(data)@.subrange(count + k, old(data)@.len() as int),
        decreases len - k,
    {
        data.set(count + k, buf[k]);
        assert(data@ =~= old(data)@.subrange(0, count as int) + buf@.subrange(0, k + 1)
            + old(data)@.subrange(count + k + 1, old(data)@.len() as int));
        k = k + 1;
    }
}

/// What reading ends with: the data when it was not stopped, nothing otherwise.
pub fn finish_read(data: Vec<u8>, canceled: bool) -> (r: Vec<u8>)
    ensures
        canceled ==> r@.len() == 0,
        !canceled ==> r@ == data@,
{
    if canceled {
        Vec::new()
    } else {
        data
    }
}

} // verus!
