//! The library's cross-operation laws, stated over the same spec
//! functions and views that the operations' own contracts use.

use vstd::prelude::*;

use crate::bundle::spec_bundle;
use crate::store::{meta_path, EntryView};
use crate::watch::{lemma_live_ids_exact, live_ids};
use crate::writer::spec_write_at;

verus! {

/// Opening a fresh path for writing, writing `b` into the staging buffer,
/// flushing, and then reading the path yields exactly `b`.
///
/// `m` is any store state without `p`; the open stages an empty
/// placeholder, the write lands `b` at position zero of the fresh buffer,
/// and the flush publishes the whole buffer.
pub proof fn lemma_staged_write_then_read(m: Map<Seq<char>, Seq<u8>>, p: Seq<char>, b: Seq<u8>)
    requires
        !m.contains_key(p),
    ensures
        ({
            let reserved = m.insert(p, Seq::<u8>::empty());
            let staged = spec_write_at(Seq::<u8>::empty(), 0, b);
            let published = reserved.insert(p, staged);
            published.contains_key(p) && published[p] == b
        }),
{
    assert(spec_write_at(Seq::<u8>::empty(), 0, b) =~= b);
}

/// A successful exclusive-create open makes the path exist at once, before
/// any bytes are flushed: the staged empty placeholder is already in the
/// store.
pub proof fn lemma_reservation_exists(m: Map<Seq<char>, Seq<u8>>, p: Seq<char>)
    ensures
        m.insert(p, Seq::<u8>::empty()).contains_key(p),
        m.insert(p, Seq::<u8>::empty())[p].len() == 0,
{
}

/// After a successful delete of `p` the path no longer exists, and every
/// other path is untouched.
pub proof fn lemma_delete_clears(m: Map<Seq<char>, Seq<u8>>, p: Seq<char>)
    ensures
        !m.remove(p).contains_key(p),
        forall|q: Seq<char>|
            q != p ==> m.remove(p).contains_key(q) == m.contains_key(q),
        forall|q: Seq<char>|
            q != p && m.contains_key(q) ==> m.remove(p)[q] == m[q],
{
}

/// An atomic write to the distinguished metadata path makes the data
/// visible to readers, and the broadcast list it reports names every live
/// subscription exactly once: each listed id is live, the list is strictly
/// ascending (so no id repeats), and no live id is missing.  The data is
/// in the store before the list — and hence any callback — exists.
pub proof fn lemma_atomic_write_notifies(
    m: Map<Seq<char>, Seq<u8>>,
    subs: Seq<bool>,
    data: Seq<u8>,
)
    requires
        subs.len() <= usize::MAX,
    ensures
        m.insert(meta_path(), data).contains_key(meta_path()),
        m.insert(meta_path(), data)[meta_path()] == data,
        forall|k: int|
            0 <= k < live_ids(subs).len() ==> #[trigger] live_ids(subs)[k] < subs.len()
                && subs[live_ids(subs)[k] as int],
        forall|k: int, l: int|
            0 <= k < l < live_ids(subs).len() ==> live_ids(subs)[k] < live_ids(subs)[l],
        forall|i: int|
            0 <= i < subs.len() && subs[i] ==> exists|k: int|
                0 <= k < live_ids(subs).len() && live_ids(subs)[k] == i,
{
    lemma_live_ids_exact(subs);
}

/// A bundle of an empty store is just an empty index block and a trailer
/// pointing at offset zero, and it parses back to no files at all.
pub proof fn lemma_empty_bundle_round_trip()
    ensures
        crate::bundle::parse_bundle(spec_bundle(Seq::<EntryView>::empty())) == Some(
            Seq::<(Seq<u8>, Seq<u8>)>::empty(),
        ),
{
    let es = Seq::<EntryView>::empty();
    crate::bundle::lemma_bundle_round_trip(es);
    assert(Seq::new(es.len(), |i: int| (vstd::utf8::encode_utf8(es[i].0), es[i].1)) =~= Seq::<
        (Seq<u8>, Seq<u8>),
    >::empty());
}

} // verus!
