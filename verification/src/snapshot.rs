//! The persisted form of the store: a length-prefixed binary snapshot that
//! round-trips losslessly, and a restore that falls back to an empty store
//! on any malformed input.
//!
//! Layout: eight bytes (little endian) for the next identifier counter, then
//! one entry per record: eight bytes for its counter, eight bytes for the
//! byte length, then the bytes themselves. Entries must appear in strictly
//! increasing counter order, all below the next counter.

use vstd::prelude::*;

use vstd::bytes::{
    lemma_auto_spec_u64_to_from_le_bytes, spec_u64_from_le_bytes, spec_u64_to_le_bytes,
    u64_from_le_bytes, u64_to_le_bytes,
};
use vstd::slice::{slice_subrange, slice_to_vec};

use crate::store::{rec_map, ImageRecord, ImageStore};
use crate::text::{dec_seq, u64_to_dec};

verus! {

/// The pairs a record sequence carries: counter and bytes of each record.
pub open spec fn pairs_of(rs: Seq<ImageRecord>) -> Seq<(u64, Seq<u8>)> {
    rs.map_values(|r: ImageRecord| (r.num, r.bytes@))
}

/// The bytes of one snapshot entry.
pub open spec fn entry_bytes(num: u64, data: Seq<u8>) -> Seq<u8> {
    spec_u64_to_le_bytes(num) + spec_u64_to_le_bytes(data.len() as u64) + data
}

/// The bytes of a run of snapshot entries.
pub open spec fn entries_bytes(es: Seq<(u64, Seq<u8>)>) -> Seq<u8>
    decreases es.len(),
{
    if es.len() == 0 {
        Seq::empty()
    } else {
        entry_bytes(es[0].0, es[0].1) + entries_bytes(es.drop_first())
    }
}

/// The full snapshot of a counter and its entries.
pub open spec fn snapshot_bytes(next: u64, es: Seq<(u64, Seq<u8>)>) -> Seq<u8> {
    spec_u64_to_le_bytes(next) + entries_bytes(es)
}

/// Structural parse of a run of entries; the whole input must be consumed.
pub open spec fn parse_entries(b: Seq<u8>) -> Option<Seq<(u64, Seq<u8>)>>
    decreases b.len(),
{
    if b.len() == 0 {
        Some(Seq::empty())
    } else if b.len() < 16 {
        None
    } else {
        let num = spec_u64_from_le_bytes(b.subrange(0, 8));
        let len = spec_u64_from_le_bytes(b.subrange(8, 16));
        if b.len() - 16 < len {
            None
        } else {
            let data = b.subrange(16, 16 + len);
            match parse_entries(b.skip(16 + len)) {
                Some(rest) => Some(seq![(num, data)] + rest),
                None => None,
            }
        }
    }
}

/// Validity of parsed entries: counters strictly increasing and below `next`.
pub open spec fn entries_ok(es: Seq<(u64, Seq<u8>)>, next: u64) -> bool {
    &&& forall|i: int| 0 <= i < es.len() ==> (#[trigger] es[i]).0 < next
    &&& forall|i: int, j: int| 0 <= i < j < es.len() ==> es[i].0 < es[j].0
}

/// What a snapshot means, if anything: the next counter and the entries.
pub open spec fn parse_snapshot(b: Seq<u8>) -> Option<(u64, Seq<(u64, Seq<u8>)>)> {
    if b.len() < 8 {
        None
    } else {
        let next = spec_u64_from_le_bytes(b.subrange(0, 8));
        match parse_entries(b.skip(8)) {
            Some(es) => if entries_ok(es, next) {
                Some((next, es))
            } else {
                None
            },
            None => None,
        }
    }
}

/// Serialized entries parse back to themselves.
pub proof fn lemma_parse_entries_of_bytes(es: Seq<(u64, Seq<u8>)>)
    requires
        forall|i: int| 0 <= i < es.len() ==> (#[trigger] es[i]).1.len() <= u64::MAX,
    ensures
        parse_entries(entries_bytes(es)) == Some(es),
    decreases es.len(),
{
    lemma_auto_spec_u64_to_from_le_bytes();
    if es.len() == 0 {
    } else {
        let num = es[0].0;
        let data = es[0].1;
        let b = entries_bytes(es);
        let tail = entries_bytes(es.drop_first());
        assert(b == entry_bytes(num, data) + tail);
        assert(b.len() == 16 + data.len() + tail.len());
        assert(b.subrange(0, 8) =~= spec_u64_to_le_bytes(num));
        assert(b.subrange(8, 16) =~= spec_u64_to_le_bytes(data.len() as u64));
        assert(spec_u64_from_le_bytes(b.subrange(0, 8)) == num);
        let len = spec_u64_from_le_bytes(b.subrange(8, 16));
        assert(len == data.len() as u64);
        assert(!(b.len() - 16 < len));
        assert(b.subrange(16, 16 + len) =~= data);
        assert(b.skip(16 + len) =~= tail);
        lemma_parse_entries_of_bytes(es.drop_first());
        assert(parse_entries(tail) == Some(es.drop_first()));
        assert(seq![(num, data)] + es.drop_first() =~= es);
    }
}

/// A well-formed snapshot parses back to what was serialized.
pub proof fn lemma_parse_of_snapshot(next: u64, es: Seq<(u64, Seq<u8>)>)
    requires
        entries_ok(es, next),
        forall|i: int| 0 <= i < es.len() ==> (#[trigger] es[i]).1.len() <= u64::MAX,
    ensures
        parse_snapshot(snapshot_bytes(next, es)) == Some((next, es)),
{
    lemma_auto_spec_u64_to_from_le_bytes();
    let b = snapshot_bytes(next, es);
    assert(b.subrange(0, 8) =~= spec_u64_to_le_bytes(next));
    assert(b.skip(8) =~= entries_bytes(es));
    lemma_parse_entries_of_bytes(es);
}

/// Serializing a concatenation concatenates the serializations.
proof fn lemma_entries_bytes_concat(a: Seq<(u64, Seq<u8>)>, b: Seq<(u64, Seq<u8>)>)
    ensures
        entries_bytes(a + b) == entries_bytes(a) + entries_bytes(b),
    decreases a.len(),
{
    if a.len() == 0 {
        assert(a + b =~= b);
        assert(entries_bytes(a) + entries_bytes(b) =~= entries_bytes(b));
    } else {
        lemma_entries_bytes_concat(a.drop_first(), b);
        assert((a + b).drop_first() =~= a.drop_first() + b);
        assert((a + b)[0] == a[0]);
        assert(entry_bytes(a[0].0, a[0].1) + (entries_bytes(a.drop_first()) + entries_bytes(b))
            =~= entries_bytes(a) + entries_bytes(b));
    }
}

/// Two well-formed record sequences with the same counters and bytes denote
/// the same mapping.
proof fn lemma_rec_map_from_pairs(r1: Seq<ImageRecord>, r2: Seq<ImageRecord>)
    requires
        pairs_of(r1) == pairs_of(r2),
        forall|i: int|
            0 <= i < r1.len() ==> (#[trigger] r1[i]).id@ == dec_seq(r1[i].num as nat),
        forall|i: int|
            0 <= i < r2.len() ==> (#[trigger] r2[i]).id@ == dec_seq(r2[i].num as nat),
    ensures
        rec_map(r1) == rec_map(r2),
    decreases r1.len(),
{
    assert(r1.len() == r2.len()) by {
        assert(pairs_of(r1).len() == r1.len());
        assert(pairs_of(r2).len() == r2.len());
    }
    if r1.len() == 0 {
    } else {
        let n = r1.len() - 1;
        assert(pairs_of(r1.drop_last()) =~= pairs_of(r2.drop_last())) by {
            assert forall|i: int| 0 <= i < n implies pairs_of(r1.drop_last())[i] == pairs_of(
                r2.drop_last(),
            )[i] by {
                assert(pairs_of(r1)[i] == pairs_of(r2)[i]);
            }
        }
        lemma_rec_map_from_pairs(r1.drop_last(), r2.drop_last());
        assert(pairs_of(r1)[n] == pairs_of(r2)[n]);
        assert(r1[n].num == r2[n].num && r1[n].bytes@ == r2[n].bytes@);
        assert(r1.last().id@ == r2.last().id@);
        assert(rec_map(r1) =~= rec_map(r2));
    }
}

/// Restoring what `snapshot` wrote yields a store that resolves the same
/// identifiers to the same bytes and continues the identifier counter where
/// the old store left it.
pub proof fn lemma_snapshot_restore_equiv(s: ImageStore, r: ImageStore)
    requires
        s.wf(),
        r.wf(),
        forall|i: int| 0 <= i < s.records@.len() ==> (#[trigger] s.records@[i]).bytes@.len()
            <= u64::MAX,
        match parse_snapshot(snapshot_bytes(s.next_id, pairs_of(s.records@))) {
            Some(p) => r.next_id == p.0 && pairs_of(r.records@) == p.1,
            None => r.next_id == 0 && r.records@.len() == 0,
        },
    ensures
        r@ == s@,
        r.next_id == s.next_id,
{
    assert(entries_ok(pairs_of(s.records@), s.next_id)) by {
        assert forall|i: int| 0 <= i < pairs_of(s.records@).len() implies (#[trigger] pairs_of(
            s.records@,
        )[i]).0 < s.next_id by {
            assert(s.records@[i].num < s.next_id);
        }
        assert forall|i: int, j: int|
            0 <= i < j < pairs_of(s.records@).len() implies pairs_of(s.records@)[i].0 < pairs_of(
            s.records@,
        )[j].0 by {
            assert(s.records@[i].num < s.records@[j].num);
        }
    }
    assert forall|i: int| 0 <= i < pairs_of(s.records@).len() implies (#[trigger] pairs_of(
        s.records@,
    )[i]).1.len() <= u64::MAX by {
        assert(s.records@[i].bytes@.len() <= u64::MAX);
    }
    lemma_parse_of_snapshot(s.next_id, pairs_of(s.records@));
    lemma_rec_map_from_pairs(r.records@, s.records@);
}

impl ImageStore {
    /// Serializes the whole store.
    pub fn snapshot(&self) -> (r: Vec<u8>)
        requires
            self.wf(),
        ensures
            r@ == snapshot_bytes(self.next_id, pairs_of(self.records@)),
    {
        let mut out = u64_to_le_bytes(self.next_id);
        let mut i: usize = 0;
        #[verifier::loop_isolation(false)]
        while i < self.records.len()
            invariant
                i <= self.records@.len(),
                out@ == spec_u64_to_le_bytes(self.next_id) + entries_bytes(
                    pairs_of(self.records@.take(i as int)),
                ),
            decreases self.records@.len() - i,
        {
            let ghost prefix = pairs_of(self.records@.take(i as int));
            let rec = &self.records[i];
            let mut num_bytes = u64_to_le_bytes(rec.num);
            out.append(&mut num_bytes);
            let mut len_bytes = u64_to_le_bytes(rec.bytes.len() as u64);
            out.append(&mut len_bytes);
            let mut data = slice_to_vec(rec.bytes.as_slice());
            out.append(&mut data);
            i = i + 1;
            proof {
                let entry = (rec.num, rec.bytes@);
                assert(pairs_of(self.records@.take(i as int)) =~= prefix + seq![entry]);
                lemma_entries_bytes_concat(prefix, seq![entry]);
                assert(seq![entry].drop_first() =~= Seq::<(u64, Seq<u8>)>::empty());
                assert(entries_bytes(Seq::<(u64, Seq<u8>)>::empty()) == Seq::<u8>::empty());
                assert(entries_bytes(seq![entry]) =~= entry_bytes(entry.0, entry.1));
                assert(out@ =~= spec_u64_to_le_bytes(self.next_id) + entries_bytes(
                    pairs_of(self.records@.take(i as int)),
                ));
            }
        }
        proof {
            assert(self.records@.take(self.records@.len() as int) =~= self.records@);
        }
        out
    }

    /// Rebuilds a store from a snapshot. Malformed input of any shape yields
    /// the empty store rather than a failure.
    pub fn restore(b: &Vec<u8>) -> (s: ImageStore)
        ensures
            s.wf(),
            match parse_snapshot(b@) {
                Some(p) => s.next_id == p.0 && pairs_of(s.records@) == p.1,
                None => s.next_id == 0 && s.records@.len() == 0,
            },
            parse_snapshot(b@) is None ==> s@ == Map::<Seq<char>, Seq<u8>>::empty(),
    {
        if b.len() < 8 {
            return ImageStore::empty();
        }
        let next = u64_from_le_bytes(slice_subrange(b.as_slice(), 0, 8));
        proof {
            assert(b@.subrange(0, 8) =~= b@.take(8));
        }
        let mut recs: Vec<ImageRecord> = Vec::new();
        let mut pos: usize = 8;
        #[verifier::loop_isolation(false)]
        while pos < b.len()
            invariant
                8 <= pos <= b@.len(),
                next == spec_u64_from_le_bytes(b@.subrange(0, 8)),
                parse_entries(b@.skip(8)) == match parse_entries(b@.skip(pos as int)) {
                    Some(rest) => Some(pairs_of(recs@) + rest),
                    None => None::<Seq<(u64, Seq<u8>)>>,
                },
                forall|i: int| 0 <= i < recs@.len() ==> (#[trigger] recs@[i]).num < next,
                forall|i: int, j: int|
                    0 <= i < j < recs@.len() ==> recs@[i].num < recs@[j].num,
                forall|i: int|
                    0 <= i < recs@.len() ==> (#[trigger] recs@[i]).id@ == dec_seq(
                        recs@[i].num as nat,
                    ),
            decreases b@.len() - pos,
        {
            let ghost tail = b@.skip(pos as int);
            if b.len() - pos < 16 {
                assert(parse_entries(tail) is None);
                return ImageStore::empty();
            }
            let num = u64_from_le_bytes(slice_subrange(b.as_slice(), pos, pos + 8));
            let len64 = u64_from_le_bytes(slice_subrange(b.as_slice(), pos + 8, pos + 16));
            proof {
                assert(b@.subrange(pos as int, pos as int + 8) =~= tail.subrange(0, 8));
                assert(b@.subrange(pos as int + 8, pos as int + 16) =~= tail.subrange(8, 16));
            }
            let rem: u64 = (b.len() - pos - 16) as u64;
            if len64 > rem {
                assert(parse_entries(tail) is None);
                return ImageStore::empty();
            }
            let len: usize = len64 as usize;
            if num >= next || (recs.len() > 0 && num <= recs[recs.len() - 1].num) {
                // the structure is intact, but the counters are invalid: the
                // full entry run can never satisfy `entries_ok`
                proof {
                    entries_not_ok(b@, pos as int, recs@, next, num);
                }
                return ImageStore::empty();
            }
            let data = slice_to_vec(slice_subrange(b.as_slice(), pos + 16, pos + 16 + len));
            let id = u64_to_dec(num);
            let ghost old_recs = recs@;
            recs.push(ImageRecord { num, id, bytes: data });
            pos = pos + 16 + len;
            proof {
                assert(tail.subrange(16, 16 + len64 as int) =~= b@.subrange(
                    pos as int - len as int,
                    pos as int,
                ));
                assert(tail.skip(16 + len64 as int) =~= b@.skip(pos as int));
                assert(pairs_of(recs@) =~= pairs_of(old_recs) + seq![
                    (num, b@.subrange(pos as int - len as int, pos as int)),
                ]);
                assert(parse_entries(b@.skip(8)) == match parse_entries(b@.skip(pos as int)) {
                    Some(rest) => Some(pairs_of(recs@) + rest),
                    None => None::<Seq<(u64, Seq<u8>)>>,
                }) by {
                    if parse_entries(b@.skip(pos as int)) is Some {
                        let rest = parse_entries(b@.skip(pos as int))->Some_0;
                        assert(parse_entries(tail) == Some(
                            seq![(num, tail.subrange(16, 16 + len64 as int))] + rest,
                        ));
                        assert(pairs_of(old_recs) + (seq![
                            (num, tail.subrange(16, 16 + len64 as int)),
                        ] + rest) =~= pairs_of(recs@) + rest);
                    }
                }
            }
        }
        proof {
            assert(b@.skip(pos as int).len() == 0);
            assert(parse_entries(b@.skip(pos as int)) == Some(Seq::<(u64, Seq<u8>)>::empty()));
            assert(pairs_of(recs@) + Seq::<(u64, Seq<u8>)>::empty() =~= pairs_of(recs@));
            assert(entries_ok(pairs_of(recs@), next)) by {
                assert forall|i: int| 0 <= i < pairs_of(recs@).len() implies (#[trigger] pairs_of(
                    recs@,
                )[i]).0 < next by {
                    assert(recs@[i].num < next);
                }
                assert forall|i: int, j: int|
                    0 <= i < j < pairs_of(recs@).len() implies pairs_of(recs@)[i].0 < pairs_of(
                    recs@,
                )[j].0 by {
                    assert(recs@[i].num < recs@[j].num);
                }
            }
            assert(b@.subrange(0, 8) =~= b@.take(8));
        }
        ImageStore { records: recs, next_id: next }
    }
}

/// When an entry's counter is out of order or too large, no continuation of
/// the already parsed entries can be valid.
proof fn entries_not_ok(
    b: Seq<u8>,
    pos: int,
    recs: Seq<ImageRecord>,
    next: u64,
    num: u64,
)
    requires
        8 <= pos <= b.len(),
        b.len() - pos >= 16,
        num == spec_u64_from_le_bytes(b.skip(pos).subrange(0, 8)),
        parse_entries(b.skip(8)) == match parse_entries(b.skip(pos)) {
            Some(rest) => Some(pairs_of(recs) + rest),
            None => None::<Seq<(u64, Seq<u8>)>>,
        },
        num >= next || (recs.len() > 0 && num <= recs.last().num),
        forall|i: int| 0 <= i < recs.len() ==> (#[trigger] recs[i]).num < next,
    ensures
        match parse_entries(b.skip(8)) {
            Some(es) => !entries_ok(es, next),
            None => true,
        },
{
    if parse_entries(b.skip(pos)) is Some {
        let tail = b.skip(pos);
        let rest = parse_entries(tail)->Some_0;
        let len = spec_u64_from_le_bytes(tail.subrange(8, 16));
        assert(rest[0] == (num, tail.subrange(16, 16 + len)));
        let es = pairs_of(recs) + rest;
        let k = recs.len() as int;
        assert(es[k].0 == num);
        if num >= next {
            assert(!entries_ok(es, next));
        } else {
            assert(es[k - 1].0 == recs.last().num);
            assert(!entries_ok(es, next));
        }
    }
}

} // verus!
