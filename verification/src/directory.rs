//! The reference-counted front door to a shared store.
//!
//! A `RAMDirectory` is a cheap-to-clone handle; all clones share one
//! underlying store behind a reader-writer lock.  Bundle serialization
//! demands sole ownership: it fails, writing nothing, while any other
//! handle to the same store is alive.

use vstd::prelude::*;
use vstd::rwlock::{RwLock, RwLockPredicate};

use crate::buffer::ReadOnlySource;
use crate::bundle::{parse_bundle, spec_bundle};
use crate::errors::{
    AtomicWriteError, DeleteError, OpenReadError, OpenWriteError, SerializeBundleError,
};
use crate::store::{meta_filepath, unique_keys, EntryView, InnerDirectory};
use crate::watch::WatchHandle;
use crate::writer::VecWriter;

verus! {

/// The lock invariant: the shared store always satisfies its
/// well-formedness condition.
pub struct StoreInv {}

impl RwLockPredicate<InnerDirectory> for StoreInv {
    open spec fn inv(self, v: InnerDirectory) -> bool {
        v.wf()
    }
}

/// A directory storing everything in anonymous memory.
///
/// Writes are only made visible upon flushing.  Cloning the handle shares
/// the underlying store.
#[derive(Clone)]
pub struct RAMDirectory {
    fs: std::rc::Rc<RwLock<InnerDirectory, StoreInv>>,
    fail_delete: bool,
    fail_atomic_write: bool,
}

impl Default for RAMDirectory {
    /// An empty store with one handle and no injected faults.
    fn default() -> (r: Self)
        ensures
            !r.injects_delete_fault(),
            !r.injects_atomic_write_fault(),
    {
        let inner = InnerDirectory::new();
        RAMDirectory {
            fs: std::rc::Rc::new(RwLock::new(inner, Ghost(StoreInv {  }))),
            fail_delete: false,
            fail_atomic_write: false,
        }
    }
}

impl RAMDirectory {
    /// Whether the injectable fault strategy makes `delete` fail.
    pub closed spec fn injects_delete_fault(&self) -> bool {
        self.fail_delete
    }

    /// Whether the injectable fault strategy makes `atomic_write` fail.
    pub closed spec fn injects_atomic_write_fault(&self) -> bool {
        self.fail_atomic_write
    }

    /// Constructor: an empty store with one handle and no injected faults.
    pub fn create() -> (r: RAMDirectory)
        ensures
            !r.injects_delete_fault(),
            !r.injects_atomic_write_fault(),
    {
        RAMDirectory::default()
    }

    /// Configures the injectable fault strategy on this handle: a test can
    /// make `delete` or `atomic_write` fail deterministically with an
    /// input/output failure.
    pub fn set_fault_injection(&mut self, on_delete: bool, on_atomic_write: bool)
        ensures
            final(self).injects_delete_fault() == on_delete,
            final(self).injects_atomic_write_fault() == on_atomic_write,
    {
        self.fail_delete = on_delete;
        self.fail_atomic_write = on_atomic_write;
    }

    /// Publishes a whole buffer under `path`, replacing any prior content.
    /// Used by a staging writer's flush.
    pub(crate) fn publish(&self, path: String, data: &[u8]) -> (existed: bool) {
        let rlock = &*self.fs;
        let (mut inner, wh) = rlock.acquire_write();
        let existed = inner.write(path, data);
        wh.release_write(inner);
        existed
    }

    /// Returns the content stored at `path` as a shareable buffer, or
    /// `FileDoesNotExist` if the path is absent.
    pub fn open_read(&self, path: &String) -> (r: Result<ReadOnlySource, OpenReadError>)
        ensures
            r matches Err(OpenReadError::FileDoesNotExist(p)) ==> p@ == path@,
    {
        let rlock = &*self.fs;
        let rh = rlock.acquire_read();
        let r = rh.borrow().open_read(path);
        rh.release_read();
        r
    }

    /// Returns the full content stored at `path` as an owned byte copy.
    pub fn atomic_read(&self, path: &String) -> (r: Result<Vec<u8>, OpenReadError>)
        ensures
            r matches Err(OpenReadError::FileDoesNotExist(p)) ==> p@ == path@,
    {
        match self.open_read(path) {
            Ok(source) => Ok(source.to_vec()),
            Err(e) => Err(e),
        }
    }

    /// Removes the file at `path`.  Fails with `FileDoesNotExist` if the
    /// path is absent, and with `IoFailure` when the injectable fault
    /// strategy is enabled for deletes.
    pub fn delete(&self, path: &String) -> (r: Result<(), DeleteError>)
        ensures
            self.injects_delete_fault() <==> r matches Err(DeleteError::IoFailure),
            r matches Err(DeleteError::FileDoesNotExist(p)) ==> p@ == path@,
    {
        if self.fail_delete {
            return Err(DeleteError::IoFailure);
        }
        let rlock = &*self.fs;
        let (mut inner, wh) = rlock.acquire_write();
        let r = inner.delete(path);
        wh.release_write(inner);
        r
    }

    /// Reports whether a file is stored at `path`.
    pub fn file_exists(&self, path: &String) -> bool {
        let rlock = &*self.fs;
        let rh = rlock.acquire_read();
        let r = rh.borrow().file_exists(path);
        rh.release_read();
        r
    }

    /// Opens `path` for writing through a staging writer.  Fails with
    /// `FileAlreadyExists` if the path is already present; otherwise an
    /// empty placeholder is staged at once — the path exists before any
    /// bytes are flushed, as under an exclusive-create open — and the
    /// returned writer starts with an empty, flushed buffer bound to the
    /// path.
    pub fn open_write(&mut self, path: &String) -> (r: Result<VecWriter, OpenWriteError>)
        ensures
            r matches Err(OpenWriteError::FileAlreadyExists(p)) ==> p@ == path@,
            r matches Ok(w) ==> w.spec_path() == path@ && w.buffer() == Seq::<u8>::empty()
                && w.is_flushed(),
    {
        let rlock = &*self.fs;
        let (mut inner, wh) = rlock.acquire_write();
        let placeholder: Vec<u8> = Vec::new();
        let existed = inner.write(path.clone(), placeholder.as_slice());
        wh.release_write(inner);
        if existed {
            Err(OpenWriteError::FileAlreadyExists(path.clone()))
        } else {
            Ok(VecWriter::new(path.clone(), self.clone()))
        }
    }

    /// A single-shot write bypassing the staging writer: reserves the
    /// path, publishes the complete buffer in one call and, when `path` is
    /// the distinguished metadata path, returns the subscription ids to
    /// notify — the data is visible before any of their callbacks can
    /// run, and each live subscription is named exactly once.  Fails with
    /// `IoFailure` when the injectable fault strategy is enabled for
    /// atomic writes.
    pub fn atomic_write(&mut self, path: &String, data: &[u8]) -> (r: Result<
        Vec<usize>,
        AtomicWriteError,
    >)
        ensures
            old(self).injects_atomic_write_fault() <==> r matches Err(AtomicWriteError::IoFailure),
            final(self).injects_delete_fault() == old(self).injects_delete_fault(),
            final(self).injects_atomic_write_fault() == old(self).injects_atomic_write_fault(),
    {
        if self.fail_atomic_write {
            return Err(AtomicWriteError::IoFailure);
        }
        let rlock = &*self.fs;
        let (mut inner, wh) = rlock.acquire_write();
        let ids = inner.atomic_write(path.clone(), data);
        wh.release_write(inner);
        Ok(ids)
    }

    /// Registers a change-notification subscription and returns its
    /// handle.
    pub fn watch(&self) -> WatchHandle {
        let rlock = &*self.fs;
        let (mut inner, wh) = rlock.acquire_write();
        let h = inner.watch();
        wh.release_write(inner);
        h
    }

    /// Deregisters a subscription, consuming its handle; its callback is
    /// never named by a later broadcast.
    pub fn unwatch(&self, h: WatchHandle) -> bool {
        let rlock = &*self.fs;
        let (mut inner, wh) = rlock.acquire_write();
        let r = inner.unwatch(h);
        wh.release_write(inner);
        r
    }

    /// Returns the sum of the sizes of the different files in the
    /// directory.
    pub fn total_mem_usage(&self) -> usize {
        let rlock = &*self.fs;
        let rh = rlock.acquire_read();
        let r = rh.borrow().total_mem_usage();
        rh.release_read();
        r
    }

    /// Reclaims the store if this is the only live handle to it.
    pub fn try_unwrap(self) -> (r: Result<InnerDirectory, ()>)
        ensures
            r matches Ok(inner) ==> inner.wf(),
    {
        let RAMDirectory { fs, fail_delete: _, fail_atomic_write: _ } = self;
        match std::rc::Rc::try_unwrap(fs) {
            Ok(rlock) => Ok(rlock.into_inner()),
            Err(_) => Err(()),
        }
    }

    /// Serializes the directory into a bundle, consuming the handle.
    ///
    /// This method fails, writing nothing, with `OwnershipConflict` while
    /// any other handle to the same store (a clone, or a staging writer
    /// holding one) is alive; with sole ownership it returns the bundle
    /// bytes: bodies, index block, and the 8-byte trailer locating the
    /// index.  The trailer's offset correctly locates a valid index:
    /// parsing the returned bytes succeeds.
    pub fn serialize_bundle(self) -> (r: Result<Vec<u8>, SerializeBundleError>)
        ensures
            r matches Ok(out) ==> exists|es: Seq<EntryView>|
                unique_keys(es) && out@ == spec_bundle(es),
            r matches Ok(out) ==> parse_bundle(out@) is Some,
    {
        match self.try_unwrap() {
            Ok(inner) => {
                let ghost es = inner.entries();
                let out = inner.serialize_bundle();
                proof {
                    assert(unique_keys(es) && out@ == spec_bundle(es));
                    crate::bundle::lemma_bundle_round_trip(es);
                }
                Ok(out)
            },
            Err(()) => Err(SerializeBundleError::OwnershipConflict),
        }
    }
}

} // verus!
