//! The staging writer: a per-path, in-memory accumulation buffer bound to
//! one handle of the shared store.
//!
//! Writes land in a private buffer at a movable position — backward seeks
//! allow patching a previously written header — and become visible to
//! readers only on an explicit flush, which re-publishes the whole current
//! buffer under the bound path.  A writer that was written to since its
//! last flush is *dirty*; disposing a dirty writer is a usage defect, so
//! the close step is the explicit, consuming [`VecWriter::terminate`].

use vstd::prelude::*;

use crate::directory::RAMDirectory;

verus! {

/// The buffer after writing `b` at position `p` of `d`: the gap between
/// the end of `d` and `p`, if any, is zero-filled, and bytes past the
/// overwritten range keep their old values.
pub open spec fn spec_write_at(d: Seq<u8>, p: int, b: Seq<u8>) -> Seq<u8> {
    Seq::new(
        if d.len() >= p + b.len() {
            d.len()
        } else {
            (p + b.len()) as nat
        },
        |i: int|
            if p <= i < p + b.len() {
                b[i - p]
            } else if i < d.len() {
                d[i]
            } else {
                0u8
            },
    )
}

/// Writer associated with a [`RAMDirectory`].
///
/// The writer just accumulates a buffer; dropping it while dirty is a
/// programming defect, not a recoverable error — flush, or call
/// [`VecWriter::terminate`], before letting one go.
pub struct VecWriter {
    path: String,
    shared_directory: RAMDirectory,
    data: Vec<u8>,
    pos: usize,
    flushed: bool,
}

impl VecWriter {
    /// The path the writer is bound to.
    pub closed spec fn spec_path(&self) -> Seq<char> {
        self.path@
    }

    /// The private staging buffer.
    pub closed spec fn buffer(&self) -> Seq<u8> {
        self.data@
    }

    /// The current write position.
    pub closed spec fn spec_pos(&self) -> int {
        self.pos as int
    }

    /// Whether every write so far has been flushed.
    pub closed spec fn is_flushed(&self) -> bool {
        self.flushed
    }

    /// A fresh writer bound to `path`: empty buffer, position zero, clean.
    pub fn new(path: String, shared_directory: RAMDirectory) -> (w: VecWriter)
        ensures
            w.spec_path() == path@,
            w.buffer() == Seq::<u8>::empty(),
            w.spec_pos() == 0,
            w.is_flushed(),
    {
        VecWriter { path, shared_directory, data: Vec::new(), pos: 0, flushed: true }
    }

    /// Moves the write position to `pos` counted from the buffer's start;
    /// a backward seek permits patch-up writes before the commit.
    pub fn seek(&mut self, pos: usize)
        ensures
            final(self).spec_pos() == pos,
            final(self).buffer() == old(self).buffer(),
            final(self).spec_path() == old(self).spec_path(),
            final(self).is_flushed() == old(self).is_flushed(),
    {
        self.pos = pos;
    }

    /// Writes `buf` at the current position, growing the buffer as needed
    /// (zero-filling any gap a forward seek left), advances the position
    /// past the written bytes, and marks the writer dirty.
    pub fn write(&mut self, buf: &[u8])
        requires
            old(self).spec_pos() + buf@.len() <= usize::MAX,
        ensures
            final(self).buffer() == spec_write_at(old(self).buffer(), old(self).spec_pos(), buf@),
            final(self).spec_pos() == old(self).spec_pos() + buf@.len(),
            !final(self).is_flushed(),
            final(self).spec_path() == old(self).spec_path(),
    {
        self.flushed = false;
        let ghost d = self.data@;
        let ghost p = self.pos as int;
        while self.data.len() < self.pos
            invariant
                self.pos == p,
                self.flushed == false,
                self.path == old(self).path,
                self.data@.len() >= d.len(),
                d.len() < p ==> self.data@ == spec_write_at(d, p, Seq::<u8>::empty()).take(
                    self.data@.len() as int,
                ),
                d.len() >= p ==> self.data@ == d,
                self.data@.len() <= spec_write_at(d, p, Seq::<u8>::empty()).len(),
            decreases p - self.data@.len(),
        {
            self.data.push(0);
            proof {
                assert(self.data@ =~= spec_write_at(d, p, Seq::<u8>::empty()).take(
                    self.data@.len() as int,
                ));
            }
        }
        proof {
            assert(self.data@ =~= spec_write_at(d, p, Seq::<u8>::empty()));
        }
        let n = buf.len();
        for k in 0..n
            invariant
                n == buf@.len(),
                self.pos == p,
                self.flushed == false,
                self.path == old(self).path,
                p + n <= usize::MAX,
                self.data@ == spec_write_at(d, p, buf@.take(k as int)),
        {
            let idx = self.pos + k;
            if idx < self.data.len() {
                self.data.set(idx, buf[k]);
            } else {
                self.data.push(buf[k]);
            }
            proof {
                assert(buf@.take(k + 1).len() == k + 1);
                assert(self.data@ =~= spec_write_at(d, p, buf@.take(k + 1)));
            }
        }
        proof {
            assert(buf@.take(n as int) =~= buf@);
        }
        self.pos = self.pos + n;
    }

    /// Publishes the entire current buffer into the store under the bound
    /// path, replacing whatever was there, and marks the writer clean.
    /// Flush is idempotent: calling it again re-publishes the same
    /// snapshot.
    pub fn flush(&mut self)
        ensures
            final(self).buffer() == old(self).buffer(),
            final(self).spec_pos() == old(self).spec_pos(),
            final(self).spec_path() == old(self).spec_path(),
            final(self).is_flushed(),
    {
        self.flushed = true;
        let _ = self.shared_directory.publish(self.path.clone(), self.data.as_slice());
    }

    /// The explicit close step: a final flush, consuming the writer.
    pub fn terminate(self) {
        let mut w = self;
        w.flush();
    }

    /// The current write position, counted from the buffer's start.
    pub fn position(&self) -> (r: usize)
        ensures
            r == self.spec_pos(),
    {
        self.pos
    }

    /// Whether the writer holds writes newer than its last flush.
    /// Disposing a writer in this state is a fatal usage defect.
    pub fn is_dirty(&self) -> (r: bool)
        ensures
            r == !self.is_flushed(),
    {
        !self.flushed
    }
}

} // verus!
