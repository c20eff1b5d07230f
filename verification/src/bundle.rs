//! The bundle format: one self-describing byte stream holding every file
//! of a store.
//!
//! Layout: the file bodies, concatenated in store order; then an index
//! block — an entry count followed by one record per file, each record
//! holding the path's byte length, the path's UTF-8 bytes, and the body's
//! start and end offsets, all numbers 8-byte little-endian; then a trailer
//! of exactly 8 bytes: the little-endian offset where the index block
//! begins.  A reader seeks to the end minus 8, reads the offset, jumps to
//! the index and can then address any file's byte range directly.

use vstd::bytes::{spec_u64_from_le_bytes, spec_u64_to_le_bytes};
use vstd::prelude::*;
use vstd::utf8::encode_utf8;

use crate::store::EntryView;

verus! {

/// One index record: the path's UTF-8 bytes and the body's start and end
/// offsets in the bundle.
pub type IndexEntryView = (Seq<u8>, u64, u64);

/// The concatenation of the entries' bodies, in order.
pub open spec fn bodies(s: Seq<EntryView>) -> Seq<u8>
    decreases s.len(),
{
    if s.len() == 0 {
        Seq::empty()
    } else {
        bodies(s.drop_last()) + s.last().1
    }
}

/// The encoding of one index record.
pub open spec fn enc_entry(e: IndexEntryView) -> Seq<u8> {
    spec_u64_to_le_bytes(e.0.len() as u64) + e.0 + spec_u64_to_le_bytes(e.1)
        + spec_u64_to_le_bytes(e.2)
}

/// The encoding of a run of index records, in order.
pub open spec fn enc_entries(s: Seq<IndexEntryView>) -> Seq<u8>
    decreases s.len(),
{
    if s.len() == 0 {
        Seq::empty()
    } else {
        enc_entries(s.drop_last()) + enc_entry(s.last())
    }
}

/// The index records of a store's entries: each path's bytes with the
/// cumulative start and end offsets of its body.
pub open spec fn spec_index(s: Seq<EntryView>) -> Seq<IndexEntryView> {
    Seq::new(
        s.len(),
        |i: int|
            (
                encode_utf8(s[i].0),
                bodies(s.take(i)).len() as u64,
                bodies(s.take(i + 1)).len() as u64,
            ),
    )
}

/// The index block: the entry count, then the records.
pub open spec fn spec_index_block(s: Seq<EntryView>) -> Seq<u8> {
    spec_u64_to_le_bytes(s.len() as u64) + enc_entries(spec_index(s))
}

/// The whole bundle: bodies, index block, trailer.
pub open spec fn spec_bundle(s: Seq<EntryView>) -> Seq<u8> {
    bodies(s) + spec_index_block(s) + spec_u64_to_le_bytes(bodies(s).len() as u64)
}

/// Parses `n` index records that exactly fill `b`.
pub open spec fn parse_index_entries(b: Seq<u8>, n: nat) -> Option<Seq<IndexEntryView>>
    decreases n,
{
    if n == 0 {
        if b.len() == 0 {
            Some(Seq::empty())
        } else {
            None
        }
    } else if b.len() < 8 {
        None
    } else {
        let l = spec_u64_from_le_bytes(b.take(8)) as int;
        if b.len() < 24 + l {
            None
        } else {
            let path = b.subrange(8, 8 + l);
            let start = spec_u64_from_le_bytes(b.subrange(8 + l, 16 + l));
            let end = spec_u64_from_le_bytes(b.subrange(16 + l, 24 + l));
            match parse_index_entries(b.skip(24 + l), (n - 1) as nat) {
                Some(rest) => Some(seq![(path, start, end)] + rest),
                None => None,
            }
        }
    }
}

/// The index block's offset as the trailer states it.
pub open spec fn bundle_index_offset(b: Seq<u8>) -> int {
    spec_u64_from_le_bytes(b.skip(b.len() - 8)) as int
}

/// The index block: from the trailer's offset up to the trailer.
pub open spec fn bundle_index_block(b: Seq<u8>) -> Seq<u8> {
    b.subrange(bundle_index_offset(b), b.len() - 8)
}

/// The index records of a bundle, if its index block is well formed.
pub open spec fn bundle_entries(b: Seq<u8>) -> Option<Seq<IndexEntryView>> {
    parse_index_entries(
        bundle_index_block(b).skip(8),
        spec_u64_from_le_bytes(bundle_index_block(b).take(8)) as nat,
    )
}

/// Parses a whole bundle back into its files: each path's bytes paired
/// with its body's bytes.  Returns `None` on any malformed framing.
pub open spec fn parse_bundle(b: Seq<u8>) -> Option<Seq<(Seq<u8>, Seq<u8>)>> {
    if b.len() < 16 {
        None
    } else if bundle_index_offset(b) + 16 > b.len() {
        None
    } else {
        match bundle_entries(b) {
            Some(ents) => if forall|i: int|
                0 <= i < ents.len() ==> (#[trigger] ents[i]).1 <= ents[i].2 && ents[i].2
                    <= bundle_index_offset(b) {
                Some(
                    Seq::new(
                        ents.len(),
                        |i: int| (ents[i].0, b.subrange(ents[i].1 as int, ents[i].2 as int)),
                    ),
                )
            } else {
                None
            },
            None => None,
        }
    }
}

/// Appending one entry extends the bodies by that entry's content.
pub proof fn lemma_bodies_push(s: Seq<EntryView>, e: EntryView)
    ensures
        bodies(s.push(e)) == bodies(s) + e.1,
{
    assert(s.push(e).drop_last() =~= s);
}

/// The bodies split at any entry boundary.
pub proof fn lemma_bodies_split(s: Seq<EntryView>, i: int)
    requires
        0 <= i <= s.len(),
    ensures
        bodies(s) == bodies(s.take(i)) + bodies(s.skip(i)),
    decreases s.len(),
{
    if i == s.len() {
        assert(s.take(i) =~= s);
        assert(bodies(s.skip(i)) =~= Seq::<u8>::empty());
        assert(bodies(s) =~= bodies(s.take(i)) + bodies(s.skip(i)));
    } else {
        let d = s.drop_last();
        lemma_bodies_split(d, i);
        assert(s.take(i) =~= d.take(i));
        assert(s.skip(i) =~= d.skip(i).push(s.last()));
        lemma_bodies_push(d.skip(i), s.last());
        assert(bodies(s) =~= bodies(s.take(i)) + bodies(s.skip(i)));
    }
}

/// The encoding of a non-empty run starts with its first record.
pub proof fn lemma_enc_entries_first(s: Seq<IndexEntryView>)
    requires
        s.len() > 0,
    ensures
        enc_entries(s) == enc_entry(s.first()) + enc_entries(s.drop_first()),
    decreases s.len(),
{
    if s.len() == 1 {
        assert(s.drop_last() =~= Seq::<IndexEntryView>::empty());
        assert(s.drop_first() =~= Seq::<IndexEntryView>::empty());
        assert(enc_entries(s) =~= enc_entry(s.first()) + enc_entries(s.drop_first()));
    } else {
        let d = s.drop_last();
        lemma_enc_entries_first(d);
        assert(s.drop_first().drop_last() =~= d.drop_first());
        assert(s.drop_first().last() == s.last());
        assert(enc_entries(s.drop_first()) == enc_entries(d.drop_first()) + enc_entry(s.last()));
        assert(enc_entries(s) =~= enc_entry(s.first()) + enc_entries(s.drop_first()));
    }
}

/// Each entry's body sits exactly at its index record's offsets.
pub proof fn lemma_bodies_index(s: Seq<EntryView>, i: int)
    requires
        0 <= i < s.len(),
    ensures
        bodies(s.take(i)).len() + s[i].1.len() == bodies(s.take(i + 1)).len(),
        bodies(s.take(i + 1)).len() <= bodies(s).len(),
        bodies(s).subrange(
            bodies(s.take(i)).len() as int,
            bodies(s.take(i + 1)).len() as int,
        ) == s[i].1,
{
    lemma_bodies_split(s, i + 1);
    assert(s.take(i + 1).drop_last() =~= s.take(i));
    assert(s.take(i + 1).last() == s[i]);
    assert(bodies(s.take(i + 1)) == bodies(s.take(i)) + s[i].1);
    let a = bodies(s.take(i));
    let c = s[i].1;
    assert(bodies(s) == a + c + bodies(s.skip(i + 1)));
    assert(bodies(s).subrange(a.len() as int, a.len() + c.len() as int) =~= c);
}

/// Reads a bundle back into its files, each path's bytes paired with its
/// body's bytes, exactly as the specification parser does: `None` on any
/// malformed framing.
pub fn read_bundle(bundle: &[u8]) -> (r: Option<Vec<(Vec<u8>, Vec<u8>)>>)
    ensures
        match r {
            Some(files) => parse_bundle(bundle@) == Some(
                files@.map_values(|f: (Vec<u8>, Vec<u8>)| (f.0@, f.1@)),
            ),
            None => parse_bundle(bundle@) is None,
        },
{
    let n = bundle.len();
    if n < 16 {
        return None;
    }
    let trailer = vstd::slice::slice_subrange(bundle, n - 8, n);
    proof {
        assert(trailer@ =~= bundle@.skip(n - 8));
    }
    let idx_off64 = vstd::bytes::u64_from_le_bytes(trailer);
    if idx_off64 > (n - 16) as u64 {
        return None;
    }
    let idx_off = idx_off64 as usize;
    let ib = vstd::slice::slice_subrange(bundle, idx_off, n - 8);
    let ghost ibs = bundle_index_block(bundle@);
    proof {
        assert(ib@ =~= ibs);
    }
    let cnt64 = vstd::bytes::u64_from_le_bytes(vstd::slice::slice_subrange(ib, 0, 8));
    proof {
        assert(ib@.subrange(0, 8) =~= ibs.take(8));
    }
    let mut ents: Vec<(Vec<u8>, u64, u64)> = Vec::new();
    let mut at: usize = 8;
    let mut k: u64 = 0;
    let ghost f = |e: (Vec<u8>, u64, u64)| (e.0@, e.1, e.2);
    while k < cnt64
        invariant
            8 <= at <= ib@.len(),
            k <= cnt64,
            n == bundle@.len(),
            16 <= n,
            idx_off64 <= (n - 16) as u64,
            idx_off == idx_off64,
            bundle_index_offset(bundle@) == idx_off64 as int,
            ib@ == ibs,
            ibs == bundle_index_block(bundle@),
            cnt64 == spec_u64_from_le_bytes(ibs.take(8)),
            f == (|e: (Vec<u8>, u64, u64)| (e.0@, e.1, e.2)),
            ents@.map_values(f).len() == k,
            bundle_entries(bundle@) == (match parse_index_entries(
                ibs.skip(at as int),
                (cnt64 - k) as nat,
            ) {
                Some(tail) => Some(ents@.map_values(f) + tail),
                None => None::<Seq<IndexEntryView>>,
            }),
        decreases cnt64 - k,
    {
        let ghost rem = ibs.skip(at as int);
        let rem_len = ib.len() - at;
        if rem_len < 8 {
            proof {
                assert(parse_index_entries(rem, (cnt64 - k) as nat) is None);
            }
            return None;
        }
        let l64 = vstd::bytes::u64_from_le_bytes(vstd::slice::slice_subrange(ib, at, at + 8));
        proof {
            assert(ib@.subrange(at as int, at + 8) =~= rem.take(8));
        }
        if rem_len < 24 {
            proof {
                assert(parse_index_entries(rem, (cnt64 - k) as nat) is None);
            }
            return None;
        }
        if l64 > (rem_len - 24) as u64 {
            proof {
                assert(parse_index_entries(rem, (cnt64 - k) as nat) is None);
            }
            return None;
        }
        let l = l64 as usize;
        let path = vstd::slice::slice_to_vec(vstd::slice::slice_subrange(ib, at + 8, at + 8 + l));
        let start = vstd::bytes::u64_from_le_bytes(
            vstd::slice::slice_subrange(ib, at + 8 + l, at + 16 + l),
        );
        let end = vstd::bytes::u64_from_le_bytes(
            vstd::slice::slice_subrange(ib, at + 16 + l, at + 24 + l),
        );
        let ghost pre_ents = ents@;
        let ghost pv = path@;
        ents.push((path, start, end));
        proof {
            assert(ib@.subrange(at + 8, at + 8 + l) =~= rem.subrange(8, 8 + l));
            assert(ib@.subrange(at + 8 + l, at + 16 + l) =~= rem.subrange(8 + l, 16 + l));
            assert(ib@.subrange(at + 16 + l, at + 24 + l) =~= rem.subrange(16 + l, 24 + l));
            assert(ibs.skip(at + 24 + l) =~= rem.skip(24 + l));
            assert(ents@.map_values(f) =~= pre_ents.map_values(f).push((pv, start, end))) by {
                let ghost lifted = pre_ents.map_values(f).push((pv, start, end));
                assert(pre_ents.map_values(f).len() == pre_ents.len());
                assert(ents@.map_values(f).len() == ents@.len());
                assert(ents@.len() == pre_ents.len() + 1);
                assert forall|q: int| 0 <= q < ents@.len() implies ents@.map_values(f)[q]
                    == lifted[q] by {
                    assert(ents@.map_values(f)[q] == f(ents@[q]));
                    if q < pre_ents.len() {
                        assert(lifted[q] == pre_ents.map_values(f)[q]);
                        assert(ents@[q] == pre_ents[q]);
                        assert(pre_ents.map_values(f)[q] == f(pre_ents[q]));
                    } else {
                        assert(lifted[q] == (pv, start, end));
                        assert(ents@[q] == (path, start, end));
                        assert(path@ == pv);
                    }
                }
            }
            assert(rem.subrange(8, 8 + l) == pv);
            match parse_index_entries(rem.skip(24 + l), (cnt64 - k - 1) as nat) {
                Some(tail) => {
                    assert(parse_index_entries(rem, (cnt64 - k) as nat) == Some(
                        seq![(pv, start, end)] + tail,
                    ));
                    assert(pre_ents.map_values(f) + (seq![(pv, start, end)] + tail)
                        =~= ents@.map_values(f) + tail);
                },
                None => {
                    assert(parse_index_entries(rem, (cnt64 - k) as nat) is None);
                },
            }
        }
        at = at + 24 + l;
        k = k + 1;
    }
    if at != ib.len() {
        proof {
            assert(ibs.skip(at as int).len() != 0);
            assert(parse_index_entries(ibs.skip(at as int), 0) is None);
        }
        return None;
    }
    proof {
        assert(ibs.skip(at as int).len() == 0);
        assert(parse_index_entries(ibs.skip(at as int), 0) == Some(Seq::<IndexEntryView>::empty()));
        assert(ents@.map_values(f) + Seq::<IndexEntryView>::empty() =~= ents@.map_values(f));
    }
    let ghost spec_ents = ents@.map_values(f);
    let mut files: Vec<(Vec<u8>, Vec<u8>)> = Vec::new();
    let m = ents.len();
    proof {
        assert(spec_ents.len() == m);
    }
    let ghost g = |p: (Vec<u8>, Vec<u8>)| (p.0@, p.1@);
    for i in 0..m
        invariant
            m == ents.len(),
            n == bundle@.len(),
            16 <= n,
            idx_off64 <= (n - 16) as u64,
            bundle_index_offset(bundle@) == idx_off64 as int,
            bundle_entries(bundle@) == Some(spec_ents),
            f == (|e: (Vec<u8>, u64, u64)| (e.0@, e.1, e.2)),
            g == (|p: (Vec<u8>, Vec<u8>)| (p.0@, p.1@)),
            spec_ents == ents@.map_values(f),
            spec_ents.len() == m,
            forall|j: int|
                0 <= j < i ==> (#[trigger] spec_ents[j]).1 <= spec_ents[j].2 && spec_ents[j].2
                    <= idx_off64,
            files@.map_values(g) == Seq::new(
                i as nat,
                |j: int|
                    (spec_ents[j].0, bundle@.subrange(spec_ents[j].1 as int, spec_ents[j].2 as int)),
            ),
    {
        proof {
            assert(spec_ents[i as int] == f(ents@[i as int]));
        }
        let start = ents[i].1;
        let end = ents[i].2;
        if !(start <= end && end <= idx_off64) {
            proof {
                assert(spec_ents[i as int].1 == start);
                assert(spec_ents[i as int].2 == end);
                assert(!(spec_ents[i as int].1 <= spec_ents[i as int].2 && spec_ents[i as int].2
                    <= bundle_index_offset(bundle@)));
                assert(parse_bundle(bundle@) is None);
            }
            return None;
        }
        let path = vstd::slice::slice_to_vec(ents[i].0.as_slice());
        let content = vstd::slice::slice_to_vec(
            vstd::slice::slice_subrange(bundle, start as usize, end as usize),
        );
        let ghost pre_files = files@;
        let ghost pv = path@;
        let ghost cv = content@;
        files.push((path, content));
        proof {
            assert(files@.map_values(g) =~= pre_files.map_values(g).push((pv, cv))) by {
                let ghost lifted = pre_files.map_values(g).push((pv, cv));
                assert(pre_files.map_values(g).len() == pre_files.len());
                assert(files@.map_values(g).len() == files@.len());
                assert(files@.len() == pre_files.len() + 1);
                assert forall|q: int| 0 <= q < files@.len() implies files@.map_values(g)[q]
                    == lifted[q] by {
                    assert(files@.map_values(g)[q] == g(files@[q]));
                    if q < pre_files.len() {
                        assert(lifted[q] == pre_files.map_values(g)[q]);
                        assert(files@[q] == pre_files[q]);
                        assert(pre_files.map_values(g)[q] == g(pre_files[q]));
                    } else {
                        assert(lifted[q] == (pv, cv));
                        assert(files@[q] == (path, content));
                        assert(path@ == pv && content@ == cv);
                    }
                }
            }
            assert(files@.map_values(g) =~= Seq::new(
                (i + 1) as nat,
                |j: int|
                    (spec_ents[j].0, bundle@.subrange(spec_ents[j].1 as int, spec_ents[j].2 as int)),
            ));
        }
    }
    proof {
        assert(files@.map_values(g) =~= Seq::new(
            spec_ents.len(),
            |j: int|
                (spec_ents[j].0, bundle@.subrange(spec_ents[j].1 as int, spec_ents[j].2 as int)),
        ));
    }
    Some(files)
}

/// Parsing an encoded run of index records recovers the records exactly.
pub proof fn lemma_parse_entries_round_trip(xs: Seq<IndexEntryView>)
    requires
        forall|i: int| 0 <= i < xs.len() ==> (#[trigger] xs[i]).0.len() <= u64::MAX,
    ensures
        parse_index_entries(enc_entries(xs), xs.len() as nat) == Some(xs),
    decreases xs.len(),
{
    vstd::bytes::lemma_auto_spec_u64_to_from_le_bytes();
    if xs.len() == 0 {
        assert(enc_entries(xs) =~= Seq::<u8>::empty());
        assert(Some(Seq::<IndexEntryView>::empty()) =~= Some(xs));
    } else {
        let e = xs.first();
        let rest = xs.drop_first();
        lemma_enc_entries_first(xs);
        let b = enc_entries(xs);
        let l = e.0.len() as int;
        let la = spec_u64_to_le_bytes(e.0.len() as u64);
        let sa = spec_u64_to_le_bytes(e.1);
        let ea = spec_u64_to_le_bytes(e.2);
        assert(b =~= la + e.0 + sa + ea + enc_entries(rest));
        assert(b.take(8) =~= la);
        assert(spec_u64_from_le_bytes(b.take(8)) as int == l);
        assert(b.len() >= 24 + l);
        assert(b.subrange(8, 8 + l) =~= e.0);
        assert(b.subrange(8 + l, 16 + l) =~= sa);
        assert(b.subrange(16 + l, 24 + l) =~= ea);
        assert(b.skip(24 + l) =~= enc_entries(rest));
        assert forall|i: int| 0 <= i < rest.len() implies (#[trigger] rest[i]).0.len()
            <= u64::MAX by {
            assert(rest[i] == xs[i + 1]);
        }
        lemma_parse_entries_round_trip(rest);
        assert(seq![(e.0, e.1, e.2)] + rest =~= xs);
    }
}

/// The bundle round trip: parsing the serialized form of a store recovers
/// every file's path bytes and content bytes exactly.  The bounds say the
/// encoded count, path lengths and offsets fit their 8-byte fields, which
/// holds of anything a store in memory can reach.
pub proof fn lemma_bundle_round_trip(s: Seq<EntryView>)
    requires
        s.len() <= u64::MAX,
        forall|i: int| 0 <= i < s.len() ==> encode_utf8((#[trigger] s[i]).0).len() <= u64::MAX,
        bodies(s).len() <= u64::MAX,
    ensures
        parse_bundle(spec_bundle(s)) == Some(
            Seq::new(s.len(), |i: int| (encode_utf8(s[i].0), s[i].1)),
        ),
{
    vstd::bytes::lemma_auto_spec_u64_to_from_le_bytes();
    let bs = bodies(s);
    let ix = spec_index(s);
    let ca = spec_u64_to_le_bytes(s.len() as u64);
    let ia = ca + enc_entries(ix);
    let ta = spec_u64_to_le_bytes(bs.len() as u64);
    let b = spec_bundle(s);
    assert(b =~= bs + ia + ta);
    assert(b.len() >= 16);
    assert(b.skip(b.len() - 8) =~= ta);
    let idx_off = spec_u64_from_le_bytes(b.skip(b.len() - 8)) as int;
    assert(idx_off == bs.len());
    assert(idx_off + 16 <= b.len());
    let ib = b.subrange(idx_off, b.len() - 8);
    assert(ib =~= ia);
    assert(ib.take(8) =~= ca);
    assert(spec_u64_from_le_bytes(ib.take(8)) as nat == s.len());
    assert(ib.skip(8) =~= enc_entries(ix));
    assert forall|i: int| 0 <= i < ix.len() implies (#[trigger] ix[i]).0.len() <= u64::MAX by {
        assert(ix[i].0 == encode_utf8(s[i].0));
    }
    lemma_parse_entries_round_trip(ix);
    assert forall|i: int|
        0 <= i < ix.len() implies (#[trigger] ix[i]).1 <= ix[i].2 && ix[i].2 <= idx_off by {
        lemma_bodies_index(s, i);
        assert(bodies(s.take(i)).len() <= bodies(s.take(i + 1)).len() <= bs.len());
    }
    let parsed = Seq::new(ix.len(), |i: int| (ix[i].0, b.subrange(ix[i].1 as int, ix[i].2 as int)));
    assert forall|i: int| 0 <= i < ix.len() implies parsed[i] == (
        encode_utf8(s[i].0),
        s[i].1,
    ) by {
        lemma_bodies_index(s, i);
        let st = bodies(s.take(i)).len() as int;
        let en = bodies(s.take(i + 1)).len() as int;
        assert(ix[i].1 as int == st && ix[i].2 as int == en);
        assert(b.subrange(st, en) =~= bs.subrange(st, en));
        assert(bs.subrange(st, en) == s[i].1);
    }
    assert(parsed =~= Seq::new(s.len(), |i: int| (encode_utf8(s[i].0), s[i].1)));
}

} // verus!
