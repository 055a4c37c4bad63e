//! The image store: a mapping from assigned identifiers to raw image bytes.
//!
//! Identifiers are decimal numerals of a monotonic counter, so an identifier
//! once assigned is never assigned again, even for identical bytes.

use vstd::prelude::*;

use crate::text::{dec_seq, lemma_dec_seq_injective, u64_to_dec};

verus! {

/// One stored image: the counter value it was assigned, the identifier
/// rendered from that counter, and the raw bytes.
pub struct ImageRecord {
    pub num: u64,
    pub id: String,
    pub bytes: Vec<u8>,
}

/// The store: records in order of assignment, and the counter for the next
/// identifier.
pub struct ImageStore {
    pub records: Vec<ImageRecord>,
    pub next_id: u64,
}

/// The mapping a record sequence denotes: each identifier to its bytes.
pub open spec fn rec_map(rs: Seq<ImageRecord>) -> Map<Seq<char>, Seq<u8>>
    decreases rs.len(),
{
    if rs.len() == 0 {
        Map::empty()
    } else {
        rec_map(rs.drop_last()).insert(rs.last().id@, rs.last().bytes@)
    }
}

impl View for ImageStore {
    type V = Map<Seq<char>, Seq<u8>>;

    open spec fn view(&self) -> Map<Seq<char>, Seq<u8>> {
        rec_map(self.records@)
    }
}

impl ImageStore {
    /// Well-formedness: counters are strictly increasing in storage order,
    /// all below the next counter, and each identifier is the decimal
    /// numeral of its counter.
    pub open spec fn wf(&self) -> bool {
        &&& forall|i: int|
            0 <= i < self.records@.len() ==> (#[trigger] self.records@[i]).num < self.next_id
        &&& forall|i: int, j: int|
            0 <= i < j < self.records@.len() ==> self.records@[i].num < self.records@[j].num
        &&& forall|i: int|
            0 <= i < self.records@.len() ==> (#[trigger] self.records@[i]).id@ == dec_seq(
                self.records@[i].num as nat,
            )
    }

    /// A fresh, empty store.
    pub fn empty() -> (s: ImageStore)
        ensures
            s.wf(),
            s@ == Map::<Seq<char>, Seq<u8>>::empty(),
            s.next_id == 0,
    {
        ImageStore { records: Vec::new(), next_id: 0 }
    }
}

/// Distinct records carry distinct identifiers.
proof fn lemma_wf_ids_distinct(s: ImageStore)
    requires
        s.wf(),
    ensures
        forall|i: int, j: int|
            0 <= i < s.records@.len() && 0 <= j < s.records@.len() && i != j
                ==> (#[trigger] s.records@[i]).id@ != (#[trigger] s.records@[j]).id@,
{
    assert forall|i: int, j: int|
        0 <= i < s.records@.len() && 0 <= j < s.records@.len() && i != j implies (
    #[trigger] s.records@[i]).id@ != (#[trigger] s.records@[j]).id@ by {
        lemma_dec_seq_injective(s.records@[i].num as nat, s.records@[j].num as nat);
    }
}

/// What the record mapping contains and where each identifier points, given
/// distinct identifiers.
proof fn lemma_rec_map_lookup(rs: Seq<ImageRecord>)
    requires
        forall|i: int, j: int|
            0 <= i < rs.len() && 0 <= j < rs.len() && i != j ==> (#[trigger] rs[i]).id@ != (
            #[trigger] rs[j]).id@,
    ensures
        forall|k: Seq<char>|
            #[trigger] rec_map(rs).contains_key(k) <==> exists|i: int|
                0 <= i < rs.len() && (#[trigger] rs[i]).id@ == k,
        forall|i: int|
            0 <= i < rs.len() ==> rec_map(rs)[(#[trigger] rs[i]).id@] == rs[i].bytes@,
    decreases rs.len(),
{
    if rs.len() > 0 {
        lemma_rec_map_lookup(rs.drop_last());
        assert forall|k: Seq<char>| #[trigger]
            rec_map(rs).contains_key(k) implies exists|i: int|
            0 <= i < rs.len() && (#[trigger] rs[i]).id@ == k by {
            if k == rs.last().id@ {
                assert(rs[rs.len() - 1].id@ == k);
            } else {
                assert(rec_map(rs.drop_last()).contains_key(k));
                let i = choose|i: int|
                    0 <= i < rs.drop_last().len() && (#[trigger] rs.drop_last()[i]).id@ == k;
                assert(rs.drop_last()[i] == rs[i]);
                assert(rs[i].id@ == k);
            }
        }
        assert forall|k: Seq<char>| (exists|i: int|
            0 <= i < rs.len() && (#[trigger] rs[i]).id@ == k) implies rec_map(rs).contains_key(
            k,
        ) by {
            let i = choose|i: int| 0 <= i < rs.len() && (#[trigger] rs[i]).id@ == k;
            if i < rs.len() - 1 {
                assert(rs.drop_last()[i].id@ == k);
            }
        }
        assert forall|i: int| 0 <= i < rs.len() implies rec_map(rs)[(#[trigger] rs[i]).id@]
            == rs[i].bytes@ by {
            if i < rs.len() - 1 {
                assert(rs.drop_last()[i].id@ == rs[i].id@);
                assert(rs[i].id@ != rs.last().id@);
            }
        }
    }
}

/// A verified byte-for-byte copy.
fn copy_bytes(v: &Vec<u8>) -> (r: Vec<u8>)
    ensures
        r@ == v@,
{
    let mut r: Vec<u8> = Vec::new();
    let mut i: usize = 0;
    while i < v.len()
        invariant
            i <= v.len(),
            r@ == v@.take(i as int),
        decreases v.len() - i,
    {
        r.push(v[i]);
        i = i + 1;
        proof {
            assert(r@ =~= v@.take(i as int));
        }
    }
    proof {
        assert(v@.take(v@.len() as int) =~= v@);
    }
    r
}

impl ImageStore {
    /// Looks an identifier up: the stored bytes if present, nothing if absent.
    pub fn get(&self, id: &String) -> (r: Option<Vec<u8>>)
        requires
            self.wf(),
        ensures
            match r {
                Some(b) => self@.contains_key(id@) && b@ == self@[id@],
                None => !self@.contains_key(id@),
            },
    {
        proof {
            lemma_wf_ids_distinct(*self);
            lemma_rec_map_lookup(self.records@);
        }
        let mut i: usize = 0;
        #[verifier::loop_isolation(false)]
        while i < self.records.len()
            invariant
                i <= self.records@.len(),
                forall|j: int| 0 <= j < i ==> (#[trigger] self.records@[j]).id@ != id@,
            decreases self.records@.len() - i,
        {
            if self.records[i].id == *id {
                proof {
                    assert((#[trigger] self.records@[i as int]).id@ == id@);
                    assert(self@.contains_key(id@));
                    assert(self@[self.records@[i as int].id@] == self.records@[i as int].bytes@);
                }
                return Some(copy_bytes(&self.records[i].bytes));
            }
            i = i + 1;
        }
        None
    }

    /// Stores the bytes under a fresh identifier and returns it. Succeeds
    /// whenever the identifier counter is not exhausted; the store is
    /// unchanged on failure.
    pub fn upload(&mut self, bytes: Vec<u8>) -> (r: Result<String, StoreError>)
        requires
            old(self).wf(),
        ensures
            final(self).wf(),
            match r {
                Ok(id) => {
                    &&& id@ == dec_seq(old(self).next_id as nat)
                    &&& !old(self)@.contains_key(id@)
                    &&& final(self)@ == old(self)@.insert(id@, bytes@)
                    &&& final(self).next_id == old(self).next_id + 1
                },
                Err(_) => {
                    &&& old(self).next_id == u64::MAX
                    &&& *final(self) == *old(self)
                },
            },
            old(self).next_id < u64::MAX <==> r is Ok,
    {
        if self.next_id == u64::MAX {
            return Err(StoreError::IdentifiersExhausted);
        }
        let num = self.next_id;
        let id = u64_to_dec(num);
        proof {
            lemma_wf_ids_distinct(*self);
            lemma_rec_map_lookup(self.records@);
            assert forall|i: int| 0 <= i < self.records@.len() implies (
            #[trigger] self.records@[i]).id@ != id@ by {
                lemma_dec_seq_injective(self.records@[i].num as nat, num as nat);
            }
        }
        let id_copy = id.clone();
        let ghost old_records = self.records@;
        self.records.push(ImageRecord { num, id, bytes });
        self.next_id = num + 1;
        proof {
            assert(self.records@.drop_last() =~= old_records);
            assert(self@ =~= rec_map(old_records).insert(id_copy@, self.records@.last().bytes@));
        }
        Ok(id_copy)
    }
}

/// Why an upload could not be performed.
#[derive(Debug, PartialEq, Eq)]
pub enum StoreError {
    IdentifiersExhausted,
}

/// Uploaded bytes come back unchanged: after a store gains `data` under the
/// fresh identifier `id`, a get of `id` resolves to exactly `data`.
pub proof fn lemma_upload_get_round_trip(
    before: Map<Seq<char>, Seq<u8>>,
    id: Seq<char>,
    data: Seq<u8>,
)
    ensures
        before.insert(id, data).contains_key(id),
        before.insert(id, data)[id] == data,
{
}

/// An identifier the store has never assigned resolves to nothing: every
/// stored counter is below `next_id`, so the numeral of any counter at or
/// past it is absent from the mapping.
pub proof fn lemma_unassigned_id_absent(s: ImageStore, n: nat)
    requires
        s.wf(),
        n >= s.next_id,
    ensures
        !s@.contains_key(dec_seq(n)),
{
    lemma_wf_ids_distinct(s);
    lemma_rec_map_lookup(s.records@);
    if s@.contains_key(dec_seq(n)) {
        let i = choose|i: int|
            0 <= i < s.records@.len() && (#[trigger] s.records@[i]).id@ == dec_seq(n);
        lemma_dec_seq_injective(s.records@[i].num as nat, n);
    }
}

/// Identifiers are never reused: distinct counter values render as distinct
/// identifiers, so two uploads assign two distinct identifiers even for
/// identical bytes.
pub proof fn lemma_identifiers_distinct(a: nat, b: nat)
    requires
        a != b,
    ensures
        dec_seq(a) != dec_seq(b),
{
    lemma_dec_seq_injective(a, b);
}

} // verus!
