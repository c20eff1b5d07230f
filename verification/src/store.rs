//! The shared in-memory store: a mapping from path to content buffer plus
//! the watch-callback registry.
//!
//! The store is held as an association list with pairwise-distinct keys and
//! is viewed in contracts as a `Map` from the path's characters to the
//! file's bytes.

use vstd::prelude::*;

use crate::buffer::ReadOnlySource;
use crate::bundle::{bodies, enc_entries, spec_bundle, spec_index};
use crate::errors::{DeleteError, OpenReadError};
use crate::watch::{live_ids, WatchCallbackList, WatchHandle};

verus! {

/// The distinguished metadata path: the one path whose atomic rewrite
/// triggers a watch broadcast.
pub open spec fn meta_path() -> Seq<char> {
    "meta.json"@
}

/// The distinguished metadata path as an owned string.
pub fn meta_filepath() -> (s: String)
    ensures
        s@ == meta_path(),
{
    "meta.json".to_owned()
}

/// The view of one stored file: its path's characters and its bytes.
pub type EntryView = (Seq<char>, Seq<u8>);

/// No two entries share a path.
pub open spec fn unique_keys(s: Seq<EntryView>) -> bool {
    forall|i: int, j: int| 0 <= i < j < s.len() ==> s[i].0 != s[j].0
}

/// The association list read as a mapping from path to bytes.  A later
/// entry would win over an earlier one; under [`unique_keys`] there is no
/// such pair.
pub open spec fn as_map(s: Seq<EntryView>) -> Map<Seq<char>, Seq<u8>>
    decreases s.len(),
{
    if s.len() == 0 {
        Map::empty()
    } else {
        as_map(s.drop_last()).insert(s.last().0, s.last().1)
    }
}

/// The total number of content bytes across all entries.
pub open spec fn total_usage(s: Seq<EntryView>) -> nat
    decreases s.len(),
{
    if s.len() == 0 {
        0
    } else {
        total_usage(s.drop_last()) + s.last().1.len()
    }
}

/// A path is in the map exactly when some entry carries it.
pub proof fn lemma_as_map_domain(s: Seq<EntryView>, p: Seq<char>)
    ensures
        as_map(s).contains_key(p) <==> exists|i: int| 0 <= i < s.len() && s[i].0 == p,
    decreases s.len(),
{
    if s.len() > 0 {
        lemma_as_map_domain(s.drop_last(), p);
        if as_map(s).contains_key(p) {
            if s.last().0 == p {
                assert(s[s.len() - 1].0 == p);
            } else {
                let i = choose|i: int| 0 <= i < s.drop_last().len() && s.drop_last()[i].0 == p;
                assert(s[i].0 == p);
            }
        }
        if exists|i: int| 0 <= i < s.len() && s[i].0 == p {
            let i = choose|i: int| 0 <= i < s.len() && s[i].0 == p;
            if i < s.len() - 1 {
                assert(s.drop_last()[i].0 == p);
            }
        }
    }
}

/// Under unique keys, the entry carrying a path gives the map's value.
pub proof fn lemma_as_map_at(s: Seq<EntryView>, i: int)
    requires
        unique_keys(s),
        0 <= i < s.len(),
    ensures
        as_map(s).contains_key(s[i].0),
        as_map(s)[s[i].0] == s[i].1,
    decreases s.len(),
{
    lemma_as_map_domain(s, s[i].0);
    if i == s.len() - 1 {
    } else {
        assert(unique_keys(s.drop_last()));
        assert(s.drop_last()[i] == s[i]);
        lemma_as_map_at(s.drop_last(), i);
        assert(s[i].0 != s.last().0);
    }
}

/// Replacing the bytes of the entry that carries a path is, on the map
/// side, an insert of that path.
pub proof fn lemma_as_map_update(s: Seq<EntryView>, i: int, d: Seq<u8>)
    requires
        unique_keys(s),
        0 <= i < s.len(),
    ensures
        unique_keys(s.update(i, (s[i].0, d))),
        as_map(s.update(i, (s[i].0, d))) == as_map(s).insert(s[i].0, d),
    decreases s.len(),
{
    let t = s.update(i, (s[i].0, d));
    assert(unique_keys(t));
    if i == s.len() - 1 {
        assert(t.drop_last() =~= s.drop_last());
        assert(as_map(t) =~= as_map(s).insert(s[i].0, d));
    } else {
        assert(unique_keys(s.drop_last()));
        assert(s.drop_last()[i] == s[i]);
        lemma_as_map_update(s.drop_last(), i, d);
        assert(t.drop_last() =~= s.drop_last().update(i, (s[i].0, d)));
        assert(t.last() == s.last());
        assert(s[i].0 != s.last().0);
        assert(as_map(t) =~= as_map(s).insert(s[i].0, d));
    }
}

/// Removing the entry that carries a path is, on the map side, a remove of
/// that path.
pub proof fn lemma_as_map_remove(s: Seq<EntryView>, i: int)
    requires
        unique_keys(s),
        0 <= i < s.len(),
    ensures
        unique_keys(s.remove(i)),
        as_map(s.remove(i)) == as_map(s).remove(s[i].0),
    decreases s.len(),
{
    let t = s.remove(i);
    assert(forall|k: int| 0 <= k < i ==> t[k] == s[k]);
    assert(forall|k: int| i <= k < t.len() ==> t[k] == s[k + 1]);
    assert(unique_keys(t));
    if i == s.len() - 1 {
        assert(t =~= s.drop_last());
        lemma_as_map_domain(s.drop_last(), s[i].0);
        assert(!as_map(s.drop_last()).contains_key(s[i].0));
        assert(as_map(t) =~= as_map(s).remove(s[i].0));
    } else {
        assert(unique_keys(s.drop_last()));
        assert(s.drop_last()[i] == s[i]);
        lemma_as_map_remove(s.drop_last(), i);
        assert(t.drop_last() =~= s.drop_last().remove(i));
        assert(t.last() == s.last());
        assert(s[i].0 != s.last().0);
        assert(as_map(t) =~= as_map(s).remove(s[i].0));
    }
}

/// Appending an entry whose path no other entry carries is, on the map
/// side, an insert of that path.
pub proof fn lemma_as_map_push(s: Seq<EntryView>, p: Seq<char>, d: Seq<u8>)
    requires
        unique_keys(s),
        forall|i: int| 0 <= i < s.len() ==> s[i].0 != p,
    ensures
        unique_keys(s.push((p, d))),
        as_map(s.push((p, d))) == as_map(s).insert(p, d),
{
    let t = s.push((p, d));
    assert(forall|i: int| 0 <= i < s.len() ==> t[i] == s[i]);
    assert(unique_keys(t));
    assert(t.drop_last() =~= s);
}

/// The store behind every directory handle: the file mapping and the watch
/// registry.
pub struct InnerDirectory {
    fs: Vec<(String, ReadOnlySource)>,
    watch_router: WatchCallbackList,
}

impl View for InnerDirectory {
    type V = Map<Seq<char>, Seq<u8>>;

    open spec fn view(&self) -> Map<Seq<char>, Seq<u8>> {
        as_map(self.entries())
    }
}

impl InnerDirectory {
    /// The stored files in insertion order, as path/bytes views.
    pub closed spec fn entries(&self) -> Seq<EntryView> {
        self.fs@.map_values(|e: (String, ReadOnlySource)| (e.0@, e.1@))
    }

    /// The fates of all subscriptions ever made on this store.
    pub closed spec fn subs(&self) -> Seq<bool> {
        self.watch_router@
    }

    /// The store's internal invariant: paths are pairwise distinct.
    pub open spec fn wf(&self) -> bool {
        unique_keys(self.entries())
    }

    /// An empty store with no subscriptions.
    pub fn new() -> (r: Self)
        ensures
            r.wf(),
            r@ == Map::<Seq<char>, Seq<u8>>::empty(),
            r.entries() == Seq::<EntryView>::empty(),
            r.subs() == Seq::<bool>::empty(),
    {
        let r = InnerDirectory { fs: Vec::new(), watch_router: WatchCallbackList::new() };
        proof {
            assert(r.entries() =~= Seq::<EntryView>::empty());
        }
        r
    }

    /// The position of the entry carrying `path`, if any.
    fn find(&self, path: &String) -> (r: Option<usize>)
        ensures
            match r {
                Some(i) => i < self.entries().len() && self.entries()[i as int].0 == path@,
                None => forall|i: int| 0 <= i < self.entries().len() ==> self.entries()[i].0 != path@,
            },
    {
        let n = self.fs.len();
        for i in 0..n
            invariant
                n == self.fs.len(),
                forall|j: int| 0 <= j < i ==> self.entries()[j].0 != path@,
        {
            proof {
                assert(self.entries()[i as int] == (self.fs@[i as int].0@, self.fs@[i as int].1@));
            }
            if self.fs[i].0.eq(path) {
                return Some(i);
            }
        }
        None
    }

    /// Inserts or replaces the file at `path` and reports whether the path
    /// was previously present.
    pub fn write(&mut self, path: String, data: &[u8]) -> (existed: bool)
        requires
            old(self).wf(),
        ensures
            final(self).wf(),
            final(self)@ == old(self)@.insert(path@, data@),
            final(self).subs() == old(self).subs(),
            existed == old(self)@.contains_key(path@),
            existed ==> total_usage(final(self).entries()) == total_usage(old(self).entries())
                - old(self)@[path@].len() + data@.len(),
            !existed ==> total_usage(final(self).entries()) == total_usage(old(self).entries())
                + data@.len(),
    {
        proof {
            lemma_as_map_domain(self.entries(), path@);
        }
        let source = ReadOnlySource::new(vstd::slice::slice_to_vec(data));
        match self.find(&path) {
            Some(i) => {
                proof {
                    lemma_as_map_at(self.entries(), i as int);
                    lemma_as_map_update(self.entries(), i as int, data@);
                    lemma_usage_update(self.entries(), i as int, data@);
                }
                let ghost pre = self.entries();
                self.fs.set(i, (path, source));
                proof {
                    assert(self.entries() =~= pre.update(i as int, (pre[i as int].0, data@)));
                }
                true
            },
            None => {
                proof {
                    lemma_as_map_push(self.entries(), path@, data@);
                    lemma_usage_push(self.entries(), path@, data@);
                }
                let ghost pre = self.entries();
                self.fs.push((path, source));
                proof {
                    assert(self.entries() =~= pre.push((path@, data@)));
                }
                false
            },
        }
    }

    /// Returns the content buffer stored at `path`, or reports that the
    /// path is absent.
    pub fn open_read(&self, path: &String) -> (r: Result<ReadOnlySource, OpenReadError>)
        requires
            self.wf(),
        ensures
            match r {
                Ok(source) => self@.contains_key(path@) && source@ == self@[path@],
                Err(OpenReadError::FileDoesNotExist(p)) => !self@.contains_key(path@) && p@
                    == path@,
            },
    {
        proof {
            lemma_as_map_domain(self.entries(), path@);
        }
        match self.find(path) {
            Some(i) => {
                proof {
                    lemma_as_map_at(self.entries(), i as int);
                }
                Ok(self.fs[i].1.clone())
            },
            None => Err(OpenReadError::FileDoesNotExist(path.clone())),
        }
    }

    /// Removes the file at `path`, or reports that the path is absent.
    pub fn delete(&mut self, path: &String) -> (r: Result<(), DeleteError>)
        requires
            old(self).wf(),
        ensures
            final(self).wf(),
            final(self).subs() == old(self).subs(),
            match r {
                Ok(()) => old(self)@.contains_key(path@) && final(self)@ == old(self)@.remove(
                    path@,
                ) && total_usage(final(self).entries()) == total_usage(old(self).entries())
                    - old(self)@[path@].len(),
                Err(DeleteError::FileDoesNotExist(p)) => !old(self)@.contains_key(path@) && p@
                    == path@ && *final(self) == *old(self),
                Err(DeleteError::IoFailure) => false,
            },
    {
        proof {
            lemma_as_map_domain(self.entries(), path@);
        }
        match self.find(path) {
            Some(i) => {
                proof {
                    lemma_as_map_at(self.entries(), i as int);
                    lemma_as_map_remove(self.entries(), i as int);
                    lemma_usage_remove(self.entries(), i as int);
                }
                let ghost pre = self.entries();
                let _ = self.fs.remove(i);
                proof {
                    assert(self.entries() =~= pre.remove(i as int));
                }
                Ok(())
            },
            None => Err(DeleteError::FileDoesNotExist(path.clone())),
        }
    }

    /// Reports whether a file is stored at `path`.
    pub fn file_exists(&self, path: &String) -> (r: bool)
        ensures
            r == self@.contains_key(path@),
    {
        proof {
            lemma_as_map_domain(self.entries(), path@);
        }
        self.find(path).is_some()
    }

    /// Registers a change-notification subscription.
    pub fn watch(&mut self) -> (h: WatchHandle)
        ensures
            final(self).subs() == old(self).subs().push(true),
            h.spec_id() == old(self).subs().len(),
            final(self).entries() == old(self).entries(),
            final(self).wf() == old(self).wf(),
    {
        self.watch_router.subscribe()
    }

    /// Deregisters a subscription, consuming its handle.
    pub fn unwatch(&mut self, h: WatchHandle) -> (r: bool)
        ensures
            final(self).entries() == old(self).entries(),
            final(self).wf() == old(self).wf(),
            h.spec_id() < old(self).subs().len() ==> final(self).subs() == old(
                self,
            ).subs().update(h.spec_id(), false) && r,
            h.spec_id() >= old(self).subs().len() ==> final(self).subs() == old(self).subs()
                && !r,
    {
        self.watch_router.unsubscribe(h)
    }

    /// The ids of the live subscriptions, each exactly once.
    pub fn broadcast(&self) -> (ids: Vec<usize>)
        ensures
            ids@ == live_ids(self.subs()),
    {
        self.watch_router.broadcast()
    }

    /// A single-shot write: reserves the path, publishes the whole buffer
    /// in one step, and — only when the path is the distinguished metadata
    /// path — reports the ids of every live subscription, each exactly
    /// once, so the caller can run their callbacks.  The data is in the
    /// store before any callback id is handed out.
    pub fn atomic_write(&mut self, path: String, data: &[u8]) -> (ids: Vec<usize>)
        requires
            old(self).wf(),
        ensures
            final(self).wf(),
            final(self)@ == old(self)@.insert(path@, data@),
            final(self).subs() == old(self).subs(),
            path@ == meta_path() ==> ids@ == live_ids(old(self).subs()),
            path@ != meta_path() ==> ids@ == Seq::<usize>::empty(),
    {
        let is_meta = path.eq(&meta_filepath());
        let ghost pre = self@;
        let ghost p = path@;
        // Reserve the path first, as an exclusive-create open would.
        let reservation: Vec<u8> = Vec::new();
        let _ = self.write(path.clone(), reservation.as_slice());
        let _ = self.write(path, data);
        proof {
            assert(pre.insert(p, reservation@).insert(p, data@) =~= pre.insert(p, data@));
        }
        if is_meta {
            self.broadcast()
        } else {
            Vec::new()
        }
    }

    /// The sum of the byte lengths of all stored files, saturating at
    /// `usize::MAX` in the (physically unreachable) case of overflow.
    pub fn total_mem_usage(&self) -> (r: usize)
        ensures
            total_usage(self.entries()) <= usize::MAX ==> r == total_usage(self.entries()),
            total_usage(self.entries()) > usize::MAX ==> r == usize::MAX,
    {
        let mut acc: usize = 0;
        let n = self.fs.len();
        for i in 0..n
            invariant
                n == self.fs.len(),
                total_usage(self.entries().take(i as int)) <= usize::MAX ==> acc == total_usage(
                    self.entries().take(i as int),
                ),
                total_usage(self.entries().take(i as int)) > usize::MAX ==> acc == usize::MAX,
        {
            proof {
                assert(self.entries().take(i + 1).drop_last() =~= self.entries().take(i as int));
            }
            let len = self.fs[i].1.len();
            if acc <= usize::MAX - len {
                acc = acc + len;
            } else {
                acc = usize::MAX;
            }
        }
        proof {
            assert(self.entries().take(n as int) =~= self.entries());
        }
        acc
    }
}

impl Default for InnerDirectory {
    /// An empty store with no subscriptions.
    fn default() -> (r: Self)
        ensures
            r.wf(),
            r@ == Map::<Seq<char>, Seq<u8>>::empty(),
            r.entries() == Seq::<EntryView>::empty(),
            r.subs() == Seq::<bool>::empty(),
    {
        InnerDirectory::new()
    }
}

impl InnerDirectory {
    /// Serializes the whole store into one self-describing bundle,
    /// consuming the store: every file's body, then the index block, then
    /// the 8-byte little-endian trailer giving the index block's offset.
    pub fn serialize_bundle(self) -> (out: Vec<u8>)
        ensures
            out@ == spec_bundle(self.entries()),
            self.entries().len() <= usize::MAX,
            bodies(self.entries()).len() <= usize::MAX,
            forall|i: int|
                0 <= i < self.entries().len() ==> vstd::utf8::encode_utf8(
                    #[trigger] self.entries()[i].0,
                ).len() <= usize::MAX,
    {
        let ghost es = self.entries();
        let mut out: Vec<u8> = Vec::new();
        let mut ranges: Vec<(Vec<u8>, u64, u64)> = Vec::new();
        let n = self.fs.len();
        for i in 0..n
            invariant
                n == self.fs.len(),
                es == self.entries(),
                out@ == bodies(es.take(i as int)),
                forall|j: int|
                    0 <= j < i ==> vstd::utf8::encode_utf8(#[trigger] es[j].0).len() <= usize::MAX,
                ranges@.map_values(|r: (Vec<u8>, u64, u64)| (r.0@, r.1, r.2)) == spec_index(
                    es,
                ).take(i as int),
        {
            proof {
                assert(self.entries()[i as int] == (self.fs@[i as int].0@, self.fs@[i as int].1@));
                assert(es.take(i + 1).drop_last() =~= es.take(i as int));
                assert(es.take(i + 1).last() == es[i as int]);
            }
            let ghost pre_ranges = ranges@;
            let start = out.len() as u64;
            let mut body = self.fs[i].1.to_vec();
            out.append(&mut body);
            let stop = out.len() as u64;
            let path_bytes = vstd::slice::slice_to_vec(self.fs[i].0.as_str().as_bytes());
            let path_len = path_bytes.len();
            ranges.push((path_bytes, start, stop));
            proof {
                assert(bodies(es.take(i + 1)) == bodies(es.take(i as int)) + es[i as int].1);
                assert(out@ == bodies(es.take(i + 1)));
                assert(path_bytes@ == vstd::utf8::encode_utf8(es[i as int].0));
                assert(vstd::utf8::encode_utf8(es[i as int].0).len() == path_len);
                assert(start as int == bodies(es.take(i as int)).len());
                assert(stop as int == bodies(es.take(i + 1)).len());
                assert(ranges@ == pre_ranges.push((path_bytes, start, stop)));
                let ghost f = |r: (Vec<u8>, u64, u64)| (r.0@, r.1, r.2);
                assert(pre_ranges.map_values(f) == spec_index(es).take(i as int));
                assert(pre_ranges.map_values(f).len() == pre_ranges.len());
                assert(spec_index(es).take(i as int).len() == i);
                assert(pre_ranges.len() == i);
                assert forall|k: int| 0 <= k < i + 1 implies ranges@.map_values(f)[k]
                    == spec_index(es).take(i + 1)[k] by {
                    if k < i {
                        assert(ranges@[k] == pre_ranges[k]);
                        assert(pre_ranges.map_values(f)[k] == f(pre_ranges[k]));
                        assert(pre_ranges.map_values(f)[k] == spec_index(es).take(i as int)[k]);
                    } else {
                        assert(ranges@[k] == (path_bytes, start, stop));
                        assert(spec_index(es).take(i + 1)[k] == spec_index(es)[k]);
                    }
                }
                assert(ranges@.map_values(f) =~= spec_index(es).take(i + 1));
                assert(ranges@.map_values(|r: (Vec<u8>, u64, u64)| (r.0@, r.1, r.2)) == ranges@
                    .map_values(f));
            }
        }
        proof {
            assert(es.take(n as int) =~= es);
            assert(ranges@.map_values(|r: (Vec<u8>, u64, u64)| (r.0@, r.1, r.2)) =~= spec_index(
                es,
            ));
        }
        let body_total = out.len();
        proof {
            assert(bodies(es).len() == body_total);
            assert(es.len() <= usize::MAX);
        }
        let index_start = body_total as u64;
        let mut count_bytes = vstd::bytes::u64_to_le_bytes(n as u64);
        out.append(&mut count_bytes);
        let m = ranges.len();
        for j in 0..m
            invariant
                m == ranges.len(),
                m == spec_index(es).len(),
                ranges@.map_values(|r: (Vec<u8>, u64, u64)| (r.0@, r.1, r.2)) == spec_index(es),
                out@ == bodies(es) + vstd::bytes::spec_u64_to_le_bytes(es.len() as u64)
                    + enc_entries(spec_index(es).take(j as int)),
        {
            proof {
                assert(spec_index(es).take(j + 1).drop_last() =~= spec_index(es).take(j as int));
                assert(ranges@.map_values(|r: (Vec<u8>, u64, u64)| (r.0@, r.1, r.2))[j as int]
                    == spec_index(es)[j as int]);
            }
            let mut len_bytes = vstd::bytes::u64_to_le_bytes(ranges[j].0.len() as u64);
            out.append(&mut len_bytes);
            let mut path_bytes = vstd::slice::slice_to_vec(ranges[j].0.as_slice());
            out.append(&mut path_bytes);
            let mut start_bytes = vstd::bytes::u64_to_le_bytes(ranges[j].1);
            out.append(&mut start_bytes);
            let mut stop_bytes = vstd::bytes::u64_to_le_bytes(ranges[j].2);
            out.append(&mut stop_bytes);
        }
        proof {
            assert(spec_index(es).take(m as int) =~= spec_index(es));
        }
        let mut trailer = vstd::bytes::u64_to_le_bytes(index_start);
        out.append(&mut trailer);
        out
    }
}

/// Replacing an entry's bytes changes the usage by the lengths' difference.
proof fn lemma_usage_update(s: Seq<EntryView>, i: int, d: Seq<u8>)
    requires
        0 <= i < s.len(),
    ensures
        total_usage(s.update(i, (s[i].0, d))) == total_usage(s) - s[i].1.len() + d.len(),
    decreases s.len(),
{
    let t = s.update(i, (s[i].0, d));
    if i == s.len() - 1 {
        assert(t.drop_last() =~= s.drop_last());
    } else {
        lemma_usage_update(s.drop_last(), i, d);
        assert(t.drop_last() =~= s.drop_last().update(i, (s[i].0, d)));
        assert(t.last() == s.last());
    }
}

/// Appending an entry adds its length to the usage.
proof fn lemma_usage_push(s: Seq<EntryView>, p: Seq<char>, d: Seq<u8>)
    ensures
        total_usage(s.push((p, d))) == total_usage(s) + d.len(),
{
    assert(s.push((p, d)).drop_last() =~= s);
}

/// Removing an entry subtracts its length from the usage.
proof fn lemma_usage_remove(s: Seq<EntryView>, i: int)
    requires
        0 <= i < s.len(),
    ensures
        total_usage(s.remove(i)) == total_usage(s) - s[i].1.len(),
    decreases s.len(),
{
    let t = s.remove(i);
    if i == s.len() - 1 {
        assert(t =~= s.drop_last());
    } else {
        lemma_usage_remove(s.drop_last(), i);
        assert(t.drop_last() =~= s.drop_last().remove(i));
        assert(t.last() == s.last());
    }
}

} // verus!
