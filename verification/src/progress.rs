//! Byte-counting adapters and fractional progress, in thousandths.

use vstd::prelude::*;

verus! {

/// Progress in thousandths, clamped to 999 while a transfer is under
/// way; exactly 1000 is reported only after a successful flush.
pub open spec fn spec_permille(done: u64, total: u64) -> u32 {
    if total == 0 {
        0u32
    } else if (done as int) * 1000 / (total as int) > 999 {
        999u32
    } else {
        ((done as int) * 1000 / (total as int)) as u32
    }
}

/// The clamped fraction `done / total` in thousandths.
pub fn permille(done: u64, total: u64) -> (r: u32)
    ensures
        r == spec_permille(done, total),
{
    if total == 0 {
        return 0;
    }
    let q = (done as u128) * 1000u128 / (total as u128);
    proof {
        assert(q == (done as int) * 1000 / (total as int));
    }
    if q > 999 {
        999
    } else {
        q as u32
    }
}

/// Counts the bytes pushed through a writer; the driver reports
/// `permille(sent, total)` after each write.
pub struct ProgressWriter<W> {
    pub inner: W,
    pub sent: u64,
}

impl<W> ProgressWriter<W> {
    pub fn new(inner: W) -> (r: Self)
        ensures
            r.sent == 0,
    {
        ProgressWriter { inner, sent: 0 }
    }

    pub fn into_inner(self) -> (r: (W, u64))
        ensures
            r.1 == self.sent,
    {
        (self.inner, self.sent)
    }

    /// Account for `n` more bytes written.
    pub fn record_write(&mut self, n: u64)
        requires
            old(self).sent + n <= u64::MAX,
        ensures
            final(self).sent == old(self).sent + n,
            final(self).inner == old(self).inner,
    {
        self.sent = self.sent + n;
    }
}

/// Counts the bytes pulled through a reader and polls a cancel flag
/// before every read.
pub struct ProgressReader<R> {
    pub inner: R,
    pub read: u64,
}

impl<R> ProgressReader<R> {
    pub fn new(inner: R) -> (r: Self)
        ensures
            r.read == 0,
    {
        ProgressReader { inner, read: 0 }
    }

    pub fn into_inner(self) -> (r: (R, u64))
        ensures
            r.1 == self.read,
    {
        (self.inner, self.read)
    }

    /// Whether the next read may proceed: a set cancel flag fails the
    /// read instead of touching the pipe.
    pub fn may_read(&self, cancelled: bool) -> (r: bool)
        ensures
            r == !cancelled,
    {
        !cancelled
    }

    /// Account for `n` more bytes read.
    pub fn record_read(&mut self, n: u64)
        requires
            old(self).read + n <= u64::MAX,
        ensures
            final(self).read == old(self).read + n,
            final(self).inner == old(self).inner,
    {
        self.read = self.read + n;
    }
}

/// File-count progress for a whole-directory compression pass.
pub struct CompressionProgress {
    pub total_file_count: usize,
    pub finished_files: usize,
}

impl CompressionProgress {
    pub fn new(total_file_count: usize, finished_files: usize) -> (r: Self)
        ensures
            r.total_file_count == total_file_count,
            r.finished_files == finished_files,
    {
        CompressionProgress { total_file_count, finished_files }
    }

    /// One more file done; the new fraction in thousandths.
    pub fn advance(&mut self) -> (r: u32)
        requires
            old(self).finished_files < usize::MAX,
        ensures
            final(self).finished_files == old(self).finished_files + 1,
            final(self).total_file_count == old(self).total_file_count,
            r == spec_permille(
                final(self).finished_files as u64,
                final(self).total_file_count as u64,
            ),
    {
        self.finished_files = self.finished_files + 1;
        permille(self.finished_files as u64, self.total_file_count as u64)
    }
}

} // verus!
