use vstd::prelude::*;
use vstd::string::{StrSliceExecFns, StringSliceAdditionalSpecFns};
use crate::card::{
    face_eq, layout_eq, printing_eq, CardFace, CardLayout, OracleCard, PriceSnapshot, Printing,
};
use crate::collection::{entry_eq, Collection, CollectionEntry, Condition};
use crate::color::ColorSet;
use crate::decimal::{DecimalValue, MANTISSA_LIMIT};
use crate::error::DbError;
use crate::ident::Uuid;
use crate::keyword::{clone_keywords, keyword_eq, Keyword};
use crate::legality::{legalities_eq, legalities_map, Format, Legalities};
use crate::oracle::{clone_opt_string, opt_string_eq};
use crate::time::Timestamp;

verus! {

// ---------------------------------------------------------------------------
// First-match lookup over a row sequence.
// ---------------------------------------------------------------------------

/// The first element satisfying `p`, scanning front to back.
pub open spec fn seq_find<T>(s: Seq<T>, p: spec_fn(T) -> bool) -> Option<T>
    decreases s.len(),
{
    if s.len() == 0 {
        None
    } else if p(s[0]) {
        Some(s[0])
    } else {
        seq_find(s.skip(1), p)
    }
}

pub proof fn lemma_seq_find_none<T>(s: Seq<T>, p: spec_fn(T) -> bool)
    requires
        forall|i: int| 0 <= i < s.len() ==> !p(#[trigger] s[i]),
    ensures
        seq_find(s, p) is None,
    decreases s.len(),
{
    if s.len() > 0 {
        assert(!p(s[0]));
        assert forall|i: int| 0 <= i < s.skip(1).len() implies !p(#[trigger] s.skip(1)[i]) by {
            assert(s.skip(1)[i] == s[i + 1]);
        }
        lemma_seq_find_none(s.skip(1), p);
    }
}

pub proof fn lemma_seq_find_at<T>(s: Seq<T>, p: spec_fn(T) -> bool, i: int)
    requires
        0 <= i < s.len(),
        p(s[i]),
        forall|k: int| 0 <= k < i ==> !p(#[trigger] s[k]),
    ensures
        seq_find(s, p) == Some(s[i]),
    decreases i,
{
    if i > 0 {
        assert(!p(s[0]));
        assert forall|k: int| 0 <= k < i - 1 implies !p(#[trigger] s.skip(1)[k]) by {
            assert(s.skip(1)[k] == s[k + 1]);
        }
        assert(s.skip(1)[i - 1] == s[i]);
        lemma_seq_find_at(s.skip(1), p, i - 1);
    }
}

/// Replacing an element that does not satisfy `p` with another that does
/// not satisfy `p` leaves the first match unchanged.
pub proof fn lemma_seq_find_update_other<T>(s: Seq<T>, i: int, v: T, p: spec_fn(T) -> bool)
    requires
        0 <= i < s.len(),
        !p(v),
        !p(s[i]),
    ensures
        seq_find(s.update(i, v), p) == seq_find(s, p),
    decreases i,
{
    let u = s.update(i, v);
    if i == 0 {
        assert(u.skip(1) =~= s.skip(1));
    } else {
        assert(u[0] == s[0]);
        if !p(s[0]) {
            assert(u.skip(1) =~= s.skip(1).update(i - 1, v));
            lemma_seq_find_update_other(s.skip(1), i - 1, v, p);
        }
    }
}

/// Appending one element: the first match stays, or comes from the new
/// element if there was none.
#[verifier::spinoff_prover]
pub proof fn lemma_seq_find_push<T>(s: Seq<T>, v: T, p: spec_fn(T) -> bool)
    ensures
        seq_find(s.push(v), p) == (if seq_find(s, p) is Some {
            seq_find(s, p)
        } else if p(v) {
            Some(v)
        } else {
            None
        }),
    decreases s.len(),
{
    let u = s.push(v);
    if s.len() == 0 {
        assert(u[0] == v);
        if !p(v) {
            assert(u.skip(1) =~= Seq::<T>::empty());
        }
    } else {
        assert(u[0] == s[0]);
        if !p(s[0]) {
            assert(u.skip(1) =~= s.skip(1).push(v));
            lemma_seq_find_push(s.skip(1), v, p);
        }
    }
}

/// Removing an element that does not satisfy `p` leaves the first match
/// unchanged.
pub proof fn lemma_seq_find_remove_other<T>(s: Seq<T>, i: int, p: spec_fn(T) -> bool)
    requires
        0 <= i < s.len(),
        !p(s[i]),
    ensures
        seq_find(s.remove(i), p) == seq_find(s, p),
    decreases i,
{
    let u = s.remove(i);
    if i == 0 {
        assert(u =~= s.skip(1));
    } else {
        assert(u[0] == s[0]);
        if !p(s[0]) {
            assert(u.skip(1) =~= s.skip(1).remove(i - 1));
            lemma_seq_find_remove_other(s.skip(1), i - 1, p);
        }
    }
}

// ---------------------------------------------------------------------------
// Rows and their keys.
// ---------------------------------------------------------------------------

/// The oracle-card table row: everything of an `OracleCard` but its faces,
/// which live in their own rows.
#[derive(Debug)]
pub struct OracleRow {
    pub oracle_id: Uuid,
    pub layout: CardLayout,
    pub color_identity: ColorSet,
    pub keywords: Vec<Keyword>,
    pub legalities: Legalities,
    pub edh_rank: Option<u32>,
    pub reserved: bool,
}

/// One face of one oracle card, keyed by (oracle identifier, face index).
#[derive(Debug)]
pub struct FaceRow {
    pub oracle_id: Uuid,
    pub face_index: usize,
    pub face: CardFace,
}

/// The collection table row; entries live in their own rows.
#[derive(Debug)]
pub struct CollectionRow {
    pub id: Uuid,
    pub name: String,
    pub description: Option<String>,
}

/// One price snapshot of one printing, keyed by (printing identifier,
/// fetch time).
#[derive(Debug, Clone, Copy)]
pub struct SnapshotRow {
    pub printing_id: Uuid,
    pub snapshot: PriceSnapshot,
}

pub open spec fn oracle_key(id: Uuid) -> spec_fn(OracleRow) -> bool {
    |r: OracleRow| r.oracle_id == id
}

pub open spec fn face_key(id: Uuid, i: int) -> spec_fn(FaceRow) -> bool {
    |r: FaceRow| r.oracle_id == id && r.face_index as int == i
}

pub open spec fn printing_key(id: Uuid) -> spec_fn(Printing) -> bool {
    |r: Printing| r.id == id
}

pub open spec fn collection_key(id: Uuid) -> spec_fn(CollectionRow) -> bool {
    |r: CollectionRow| r.id == id
}

pub open spec fn entry_key(cid: Uuid, pid: Uuid, cond: Condition, foil: bool) -> spec_fn(
    CollectionEntry,
) -> bool {
    |r: CollectionEntry| r.collection_id == cid && r.printing_id == pid && r.condition == cond
        && r.foil == foil
}

pub open spec fn snapshot_key(pid: Uuid, at: Timestamp) -> spec_fn(SnapshotRow) -> bool {
    |r: SnapshotRow| r.printing_id == pid && r.snapshot.fetched_at == at
}

pub open spec fn find_oracle_row(s: Seq<OracleRow>, id: Uuid) -> Option<OracleRow> {
    seq_find(s, oracle_key(id))
}

pub open spec fn find_face_row(s: Seq<FaceRow>, id: Uuid, i: int) -> Option<FaceRow> {
    seq_find(s, face_key(id, i))
}

pub open spec fn find_printing_row(s: Seq<Printing>, id: Uuid) -> Option<Printing> {
    seq_find(s, printing_key(id))
}

pub open spec fn find_collection_row(s: Seq<CollectionRow>, id: Uuid) -> Option<CollectionRow> {
    seq_find(s, collection_key(id))
}

pub open spec fn find_entry_row(
    s: Seq<CollectionEntry>,
    cid: Uuid,
    pid: Uuid,
    cond: Condition,
    foil: bool,
) -> Option<CollectionEntry> {
    seq_find(s, entry_key(cid, pid, cond, foil))
}

pub open spec fn find_snapshot_row(s: Seq<SnapshotRow>, pid: Uuid, at: Timestamp) -> Option<
    SnapshotRow,
> {
    seq_find(s, snapshot_key(pid, at))
}

/// How many face rows belong to the given oracle identifier.
pub open spec fn face_count(s: Seq<FaceRow>, id: Uuid) -> int
    decreases s.len(),
{
    if s.len() == 0 {
        0
    } else {
        face_count(s.drop_last(), id) + (if s.last().oracle_id == id {
            1int
        } else {
            0int
        })
    }
}

// ---------------------------------------------------------------------------
// The backend itself.
// ---------------------------------------------------------------------------

/// The in-memory storage backend: one vector per table, with the same
/// keys, write semantics and read semantics the relational schema gives
/// the repositories.
#[derive(Debug)]
pub struct Storage {
    pub oracle_rows: Vec<OracleRow>,
    pub face_rows: Vec<FaceRow>,
    pub printing_rows: Vec<Printing>,
    pub collection_rows: Vec<CollectionRow>,
    pub entry_rows: Vec<CollectionEntry>,
    pub snapshot_rows: Vec<SnapshotRow>,
}

/// No two oracle rows share an oracle identifier.
pub open spec fn oracle_rows_unique(s: Seq<OracleRow>) -> bool {
    forall|i: int, j: int|
        0 <= i < j < s.len() ==> (#[trigger] s[i]).oracle_id != (#[trigger] s[j]).oracle_id
}

/// No two face rows share an (oracle identifier, face index) key.
pub open spec fn face_rows_unique(s: Seq<FaceRow>) -> bool {
    forall|i: int, j: int|
        0 <= i < j < s.len() ==> !((#[trigger] s[i]).oracle_id == (#[trigger] s[j]).oracle_id
            && s[i].face_index == s[j].face_index)
}

/// No two printing rows share an identifier.
pub open spec fn printing_rows_unique(s: Seq<Printing>) -> bool {
    forall|i: int, j: int| 0 <= i < j < s.len() ==> (#[trigger] s[i]).id != (#[trigger] s[j]).id
}

/// No two collection rows share an identifier.
pub open spec fn collection_rows_unique(s: Seq<CollectionRow>) -> bool {
    forall|i: int, j: int| 0 <= i < j < s.len() ==> (#[trigger] s[i]).id != (#[trigger] s[j]).id
}

/// No two entry rows share the natural key.
pub open spec fn entry_rows_unique(s: Seq<CollectionEntry>) -> bool {
    forall|i: int, j: int|
        0 <= i < j < s.len() ==> !((#[trigger] s[i]).collection_id == (
        #[trigger] s[j]).collection_id && s[i].printing_id == s[j].printing_id && s[i].condition
            == s[j].condition && s[i].foil == s[j].foil)
}

/// Every stored currency amount is a well-formed decimal.
pub open spec fn price_snapshot_wf(s: PriceSnapshot) -> bool {
    &&& match s.usd {
        Some(d) => d.wf(),
        None => true,
    }
    &&& match s.usd_foil {
        Some(d) => d.wf(),
        None => true,
    }
    &&& match s.eur {
        Some(d) => d.wf(),
        None => true,
    }
    &&& match s.tix {
        Some(d) => d.wf(),
        None => true,
    }
}

pub open spec fn snapshots_wf(s: Seq<SnapshotRow>) -> bool {
    forall|i: int| 0 <= i < s.len() ==> price_snapshot_wf((#[trigger] s[i]).snapshot)
}

/// No two snapshot rows share the (printing, fetch time) key.
pub open spec fn snapshot_rows_unique(s: Seq<SnapshotRow>) -> bool {
    forall|i: int, j: int|
        0 <= i < j < s.len() ==> !((#[trigger] s[i]).printing_id == (#[trigger] s[j]).printing_id
            && s[i].snapshot.fetched_at == s[j].snapshot.fetched_at)
}

impl Storage {
    pub open spec fn face_indexes_closed(self) -> bool {
        forall|id: Uuid, i: int|
            0 <= i ==> ((#[trigger] find_face_row(self.face_rows@, id, i)) is Some <==> i
                < face_count(self.face_rows@, id))
    }

    pub open spec fn wf(self) -> bool {
        &&& oracle_rows_unique(self.oracle_rows@)
        &&& face_rows_unique(self.face_rows@)
        &&& printing_rows_unique(self.printing_rows@)
        &&& collection_rows_unique(self.collection_rows@)
        &&& entry_rows_unique(self.entry_rows@)
        &&& snapshot_rows_unique(self.snapshot_rows@)
        &&& snapshots_wf(self.snapshot_rows@)
        &&& self.face_indexes_closed()
    }

    pub open spec fn cards_unchanged(a: Storage, b: Storage) -> bool {
        a.oracle_rows == b.oracle_rows && a.face_rows == b.face_rows
    }

    pub open spec fn printings_unchanged(a: Storage, b: Storage) -> bool {
        a.printing_rows == b.printing_rows
    }

    pub open spec fn collections_unchanged(a: Storage, b: Storage) -> bool {
        a.collection_rows == b.collection_rows && a.entry_rows == b.entry_rows
    }

    pub open spec fn prices_unchanged(a: Storage, b: Storage) -> bool {
        a.snapshot_rows == b.snapshot_rows
    }

    /// An empty backend, as a freshly created database file holds.
    pub fn open_in_memory() -> (r: Storage)
        ensures
            r.wf(),
            r.oracle_rows@.len() == 0,
            r.face_rows@.len() == 0,
            r.printing_rows@.len() == 0,
            r.collection_rows@.len() == 0,
            r.entry_rows@.len() == 0,
            r.snapshot_rows@.len() == 0,
    {
        let r = Storage {
            oracle_rows: Vec::new(),
            face_rows: Vec::new(),
            printing_rows: Vec::new(),
            collection_rows: Vec::new(),
            entry_rows: Vec::new(),
            snapshot_rows: Vec::new(),
        };
        proof {
            assert forall|id: Uuid, i: int| 0 <= i implies ((#[trigger] find_face_row(
                r.face_rows@,
                id,
                i,
            )) is Some <==> i < face_count(r.face_rows@, id)) by {
                assert(find_face_row(r.face_rows@, id, i) is None);
            }
        }
        r
    }

    /// Writes or replaces the printing row keyed by its identifier.
    pub fn upsert_printing(&mut self, p: &Printing)
        requires
            old(self).wf(),
        ensures
            final(self).wf(),
            final(self).printing_rows@.len() <= old(self).printing_rows@.len() + 1,
            find_printing_row(final(self).printing_rows@, p.id) matches Some(q) && printing_eq(
                q,
                *p,
            ),
            forall|k: Uuid|
                k != p.id ==> #[trigger] find_printing_row(final(self).printing_rows@, k)
                    == find_printing_row(old(self).printing_rows@, k),
            Storage::cards_unchanged(*old(self), *final(self)),
            Storage::collections_unchanged(*old(self), *final(self)),
            Storage::prices_unchanged(*old(self), *final(self)),
    {
        let ghost s0 = self.printing_rows@;
        let n = self.printing_rows.len();
        let mut i: usize = 0;
        while i < n
            invariant
                old(self).wf(),
                *self == *old(self),
                self.printing_rows@ == s0,
                s0 == old(self).printing_rows@,
                n == self.printing_rows@.len(),
                0 <= i <= n,
                forall|k: int| 0 <= k < i ==> (#[trigger] self.printing_rows@[k]).id != p.id,
            decreases n - i,
        {
            if self.printing_rows[i].id == p.id {
                let pc = p.clone();
                let ghost v = pc;
                self.printing_rows[i] = pc;
                proof {
                    let u = self.printing_rows@;
                    assert(u == s0.update(i as int, v));
                    assert((printing_key(p.id))(u[i as int]));
                    lemma_seq_find_at(u, printing_key(p.id), i as int);
                    assert forall|k: Uuid| k != p.id implies #[trigger] find_printing_row(u, k)
                        == find_printing_row(s0, k) by {
                        assert(!(printing_key(k))(v));
                        assert(!(printing_key(k))(s0[i as int]));
                        lemma_seq_find_update_other(s0, i as int, v, printing_key(k));
                    }
                    assert(printing_rows_unique(s0));
                    assert(u.len() == s0.len());
                    assert forall|a: int, b: int| 0 <= a < b < u.len() implies (
                    #[trigger] u[a]).id != (#[trigger] u[b]).id by {
                        assert(0 <= a < b < s0.len());
                        assert(s0[a].id != s0[b].id);
                        assert(u[a] == if a == i as int { v } else { s0[a] });
                        assert(u[b] == if b == i as int { v } else { s0[b] });
                    }
                }
                return ;
            }
            i = i + 1;
        }
        let pc = p.clone();
        let ghost v = pc;
        self.printing_rows.push(pc);
        proof {
            let u = self.printing_rows@;
            assert(u == s0.push(v));
            assert forall|k: int| 0 <= k < s0.len() implies !(printing_key(p.id))(
                #[trigger] s0[k],
            ) by {}
            lemma_seq_find_none(s0, printing_key(p.id));
            lemma_seq_find_push(s0, v, printing_key(p.id));
            assert((printing_key(p.id))(v));
            assert forall|k: Uuid| k != p.id implies #[trigger] find_printing_row(u, k)
                == find_printing_row(s0, k) by {
                assert(!(printing_key(k))(v));
                lemma_seq_find_push(s0, v, printing_key(k));
            }
            assert forall|a: int, b: int| 0 <= a < b < u.len() implies (#[trigger] u[a]).id != (
            #[trigger] u[b]).id by {
                if b < s0.len() {
                } else {
                    assert(u[b] == v);
                    assert(u[a] == s0[a]);
                }
            }
        }
    }

    /// Looks one printing up by its identifier; an absent identifier
    /// yields nothing, not an error.
    pub fn get_by_id(&self, id: Uuid) -> (r: Option<Printing>)
        requires
            self.wf(),
        ensures
            match r {
                Some(p) => find_printing_row(self.printing_rows@, id) matches Some(q)
                    && printing_eq(p, q),
                None => find_printing_row(self.printing_rows@, id) is None,
            },
    {
        let n = self.printing_rows.len();
        let mut i: usize = 0;
        while i < n
            invariant
                n == self.printing_rows@.len(),
                0 <= i <= n,
                forall|k: int| 0 <= k < i ==> (#[trigger] self.printing_rows@[k]).id != id,
            decreases n - i,
        {
            if self.printing_rows[i].id == id {
                proof {
                    assert((printing_key(id))(self.printing_rows@[i as int]));
                    lemma_seq_find_at(self.printing_rows@, printing_key(id), i as int);
                }
                return Some(self.printing_rows[i].clone());
            }
            i = i + 1;
        }
        proof {
            lemma_seq_find_none(self.printing_rows@, printing_key(id));
        }
        None
    }
}

// ---------------------------------------------------------------------------
// Face-count lemmas.
// ---------------------------------------------------------------------------

pub proof fn lemma_face_count_bounds(s: Seq<FaceRow>, id: Uuid)
    ensures
        0 <= face_count(s, id) <= s.len(),
    decreases s.len(),
{
    if s.len() > 0 {
        lemma_face_count_bounds(s.drop_last(), id);
    }
}

pub proof fn lemma_face_count_update(s: Seq<FaceRow>, i: int, v: FaceRow)
    requires
        0 <= i < s.len(),
        s[i].oracle_id == v.oracle_id,
    ensures
        forall|id: Uuid| #[trigger] face_count(s.update(i, v), id) == face_count(s, id),
    decreases s.len(),
{
    let u = s.update(i, v);
    if i == s.len() - 1 {
        assert(u.drop_last() =~= s.drop_last());
        assert(u.last() == v);
        assert forall|id: Uuid| #[trigger] face_count(u, id) == face_count(s, id) by {
            assert(face_count(u, id) == face_count(u.drop_last(), id) + (if v.oracle_id == id {
                1int
            } else {
                0int
            }));
        }
    } else {
        assert(u.drop_last() =~= s.drop_last().update(i, v));
        lemma_face_count_update(s.drop_last(), i, v);
        assert(u.last() == s.last());
        assert forall|id: Uuid| #[trigger] face_count(u, id) == face_count(s, id) by {
            assert(face_count(u.drop_last(), id) == face_count(s.drop_last(), id));
        }
    }
}

pub proof fn lemma_face_count_push(s: Seq<FaceRow>, v: FaceRow)
    ensures
        forall|id: Uuid|
            #[trigger] face_count(s.push(v), id) == face_count(s, id) + (if v.oracle_id == id {
                1int
            } else {
                0int
            }),
{
    assert forall|id: Uuid|
        #[trigger] face_count(s.push(v), id) == face_count(s, id) + (if v.oracle_id == id {
            1int
        } else {
            0int
        }) by {
        assert(s.push(v).drop_last() =~= s);
        assert(s.push(v).last() == v);
    }
}

// ---------------------------------------------------------------------------
// Oracle cards and their faces.
// ---------------------------------------------------------------------------

/// The row and the card agree on everything a row holds (the faces live in
/// their own rows).
pub open spec fn row_card_eq(r: OracleRow, c: OracleCard) -> bool {
    &&& r.oracle_id == c.oracle_id
    &&& layout_eq(r.layout, c.layout)
    &&& r.color_identity == c.color_identity
    &&& r.keywords@.len() == c.keywords@.len()
    &&& forall|i: int|
        0 <= i < r.keywords@.len() ==> keyword_eq(#[trigger] r.keywords@[i], c.keywords@[i])
    &&& legalities_eq(r.legalities, c.legalities)
    &&& r.edh_rank == c.edh_rank
    &&& r.reserved == c.reserved
}

/// The oracle row a card is written as.
fn row_from_card(card: &OracleCard) -> (r: OracleRow)
    ensures
        row_card_eq(r, *card),
{
    OracleRow {
        oracle_id: card.oracle_id,
        layout: card.layout.clone(),
        color_identity: card.color_identity,
        keywords: clone_keywords(&card.keywords),
        legalities: card.legalities.clone(),
        edh_rank: card.edh_rank,
        reserved: card.reserved,
    }
}

impl Storage {
    /// Writes or replaces one face row; face lists are written from index
    /// zero, so a new index is always the next free one.
    fn upsert_face_row(&mut self, oid: Uuid, j: usize, face: CardFace)
        requires
            face_rows_unique(old(self).face_rows@),
            old(self).face_indexes_closed(),
            j as int <= face_count(old(self).face_rows@, oid),
        ensures
            face_rows_unique(final(self).face_rows@),
            final(self).face_indexes_closed(),
            find_face_row(final(self).face_rows@, oid, j as int) matches Some(fr) && fr.oracle_id
                == oid && fr.face_index == j && fr.face == face,
            forall|id: Uuid, i: int|
                !(id == oid && i == j as int) ==> #[trigger] find_face_row(
                    final(self).face_rows@,
                    id,
                    i,
                ) == find_face_row(old(self).face_rows@, id, i),
            forall|id: Uuid|
                id != oid ==> #[trigger] face_count(final(self).face_rows@, id) == face_count(
                    old(self).face_rows@,
                    id,
                ),
            face_count(final(self).face_rows@, oid) == (if (j as int) + 1 >= face_count(
                old(self).face_rows@,
                oid,
            ) {
                (j as int) + 1
            } else {
                face_count(old(self).face_rows@, oid)
            }),
            final(self).oracle_rows == old(self).oracle_rows,
            Storage::printings_unchanged(*old(self), *final(self)),
            Storage::collections_unchanged(*old(self), *final(self)),
            Storage::prices_unchanged(*old(self), *final(self)),
    {
        let ghost s0 = self.face_rows@;
        let n = self.face_rows.len();
        let mut idx: usize = 0;
        while idx < n
            invariant
                face_rows_unique(s0),
                old(self).face_indexes_closed(),
                j as int <= face_count(s0, oid),
                *self == *old(self),
                self.face_rows@ == s0,
                s0 == old(self).face_rows@,
                n == s0.len(),
                0 <= idx <= n,
                forall|k: int|
                    0 <= k < idx ==> !((#[trigger] s0[k]).oracle_id == oid && s0[k].face_index
                        == j),
            decreases n - idx,
        {
            if self.face_rows[idx].oracle_id == oid && self.face_rows[idx].face_index == j {
                let ghost v = FaceRow { oracle_id: oid, face_index: j, face };
                self.face_rows[idx] = FaceRow { oracle_id: oid, face_index: j, face };
                proof {
                    let u = self.face_rows@;
                    assert(u == s0.update(idx as int, v));
                    assert((face_key(oid, j as int))(u[idx as int]));
                    lemma_seq_find_at(u, face_key(oid, j as int), idx as int);
                    assert forall|id: Uuid, i: int| !(id == oid && i == j as int)
                        implies #[trigger] find_face_row(u, id, i) == find_face_row(s0, id, i) by {
                        assert(!(face_key(id, i))(v));
                        assert(!(face_key(id, i))(s0[idx as int]));
                        lemma_seq_find_update_other(s0, idx as int, v, face_key(id, i));
                    }
                    lemma_face_count_update(s0, idx as int, v);
                    lemma_seq_find_at(s0, face_key(oid, j as int), idx as int);
                    assert(find_face_row(s0, oid, j as int) is Some);
                    assert((j as int) < face_count(s0, oid));
                    assert forall|a: int, b: int| 0 <= a < b < u.len() implies !((
                    #[trigger] u[a]).oracle_id == (#[trigger] u[b]).oracle_id && u[a].face_index
                        == u[b].face_index) by {
                        assert(!(s0[a].oracle_id == s0[b].oracle_id && s0[a].face_index
                            == s0[b].face_index));
                    }
                    assert forall|id: Uuid, i: int| 0 <= i implies ((#[trigger] find_face_row(
                        u,
                        id,
                        i,
                    )) is Some <==> i < face_count(u, id)) by {
                        assert(face_count(u, id) == face_count(s0, id));
                        if id == oid && i == j as int {
                        } else {
                            assert(find_face_row(u, id, i) == find_face_row(s0, id, i));
                        }
                    }
                }
                return ;
            }
            idx = idx + 1;
        }
        // The index is new: it is exactly the next free one.
        proof {
            lemma_seq_find_none(s0, face_key(oid, j as int));
            assert(!(find_face_row(s0, oid, j as int) is Some));
            assert(!((j as int) < face_count(s0, oid)));
        }
        let ghost v = FaceRow { oracle_id: oid, face_index: j, face };
        self.face_rows.push(FaceRow { oracle_id: oid, face_index: j, face });
        proof {
            let u = self.face_rows@;
            assert(u == s0.push(v));
            lemma_seq_find_push(s0, v, face_key(oid, j as int));
            assert((face_key(oid, j as int))(v));
            assert forall|id: Uuid, i: int| !(id == oid && i == j as int)
                implies #[trigger] find_face_row(u, id, i) == find_face_row(s0, id, i) by {
                assert(!(face_key(id, i))(v));
                lemma_seq_find_push(s0, v, face_key(id, i));
            }
            lemma_face_count_push(s0, v);
            assert forall|a: int, b: int| 0 <= a < b < u.len() implies !((
            #[trigger] u[a]).oracle_id == (#[trigger] u[b]).oracle_id && u[a].face_index
                == u[b].face_index) by {
                if b == s0.len() {
                    assert(u[b] == v);
                    assert(u[a] == s0[a]);
                    if s0[a].oracle_id == oid && s0[a].face_index as int == j as int {
                        assert(find_face_row(s0, oid, j as int) is None);
                        lemma_seq_find_at(s0, face_key(oid, j as int), a);
                    }
                } else {
                    assert(!(s0[a].oracle_id == s0[b].oracle_id && s0[a].face_index
                        == s0[b].face_index));
                }
            }
            assert forall|id: Uuid, i: int| 0 <= i implies ((#[trigger] find_face_row(
                u,
                id,
                i,
            )) is Some <==> i < face_count(u, id)) by {
                if id == oid {
                    if i == j as int {
                    } else {
                        assert(find_face_row(u, id, i) == find_face_row(s0, id, i));
                    }
                } else {
                    assert(find_face_row(u, id, i) == find_face_row(s0, id, i));
                    assert(face_count(u, id) == face_count(s0, id));
                }
            }
        }
    }

    /// Writes or replaces the oracle row keyed by the card's identifier.
    fn upsert_oracle_row(&mut self, card: &OracleCard)
        requires
            old(self).wf(),
        ensures
            final(self).wf(),
            find_oracle_row(final(self).oracle_rows@, card.oracle_id) matches Some(row)
                && row_card_eq(row, *card),
            forall|k: Uuid|
                k != card.oracle_id ==> #[trigger] find_oracle_row(final(self).oracle_rows@, k)
                    == find_oracle_row(old(self).oracle_rows@, k),
            final(self).face_rows == old(self).face_rows,
            Storage::printings_unchanged(*old(self), *final(self)),
            Storage::collections_unchanged(*old(self), *final(self)),
            Storage::prices_unchanged(*old(self), *final(self)),
    {
        let ghost s0 = self.oracle_rows@;
        let n = self.oracle_rows.len();
        let mut i: usize = 0;
        while i < n
            invariant
                old(self).wf(),
                *self == *old(self),
                self.oracle_rows@ == s0,
                s0 == old(self).oracle_rows@,
                n == s0.len(),
                0 <= i <= n,
                forall|k: int| 0 <= k < i ==> (#[trigger] s0[k]).oracle_id != card.oracle_id,
            decreases n - i,
        {
            if self.oracle_rows[i].oracle_id == card.oracle_id {
                let row = row_from_card(card);
                let ghost v = row;
                self.oracle_rows[i] = row;
                proof {
                    let u = self.oracle_rows@;
                    assert(u == s0.update(i as int, v));
                    assert((oracle_key(card.oracle_id))(u[i as int]));
                    lemma_seq_find_at(u, oracle_key(card.oracle_id), i as int);
                    assert forall|k: Uuid| k != card.oracle_id implies #[trigger] find_oracle_row(
                        u,
                        k,
                    ) == find_oracle_row(s0, k) by {
                        assert(!(oracle_key(k))(v));
                        assert(!(oracle_key(k))(s0[i as int]));
                        lemma_seq_find_update_other(s0, i as int, v, oracle_key(k));
                    }
                    assert forall|a: int, b: int| 0 <= a < b < u.len() implies (
                    #[trigger] u[a]).oracle_id != (#[trigger] u[b]).oracle_id by {
                        assert(s0[a].oracle_id != s0[b].oracle_id);
                    }
                }
                return ;
            }
            i = i + 1;
        }
        let row = row_from_card(card);
        let ghost v = row;
        self.oracle_rows.push(row);
        proof {
            let u = self.oracle_rows@;
            assert(u == s0.push(v));
            lemma_seq_find_none(s0, oracle_key(card.oracle_id));
            lemma_seq_find_push(s0, v, oracle_key(card.oracle_id));
            assert((oracle_key(card.oracle_id))(v));
            assert forall|k: Uuid| k != card.oracle_id implies #[trigger] find_oracle_row(u, k)
                == find_oracle_row(s0, k) by {
                assert(!(oracle_key(k))(v));
                lemma_seq_find_push(s0, v, oracle_key(k));
            }
            assert forall|a: int, b: int| 0 <= a < b < u.len() implies (#[trigger] u[a]).oracle_id
                != (#[trigger] u[b]).oracle_id by {
                if b < s0.len() {
                    assert(s0[a].oracle_id != s0[b].oracle_id);
                } else {
                    assert(u[b] == v);
                    assert(u[a] == s0[a]);
                }
            }
        }
    }

    /// Writes an oracle card: its row, then each face row keyed by
    /// (identifier, index), the whole face list on every call. A card that
    /// lost faces since an earlier, wider write leaves the higher-index
    /// face rows in place.
    pub fn upsert_oracle(&mut self, card: &OracleCard)
        requires
            old(self).wf(),
        ensures
            final(self).wf(),
            find_oracle_row(final(self).oracle_rows@, card.oracle_id) matches Some(row)
                && row_card_eq(row, *card),
            forall|k: Uuid|
                k != card.oracle_id ==> #[trigger] find_oracle_row(final(self).oracle_rows@, k)
                    == find_oracle_row(old(self).oracle_rows@, k),
            forall|i: int|
                0 <= i < card.faces@.len() ==> (#[trigger] find_face_row(
                    final(self).face_rows@,
                    card.oracle_id,
                    i,
                ) matches Some(fr) && face_eq(fr.face, card.faces@[i])),
            forall|id: Uuid, i: int|
                !(id == card.oracle_id && 0 <= i < card.faces@.len())
                    ==> #[trigger] find_face_row(final(self).face_rows@, id, i) == find_face_row(
                    old(self).face_rows@,
                    id,
                    i,
                ),
            forall|id: Uuid|
                id != card.oracle_id ==> #[trigger] face_count(final(self).face_rows@, id)
                    == face_count(old(self).face_rows@, id),
            face_count(final(self).face_rows@, card.oracle_id) == (if card.faces@.len()
                >= face_count(old(self).face_rows@, card.oracle_id) {
                card.faces@.len() as int
            } else {
                face_count(old(self).face_rows@, card.oracle_id)
            }),
            Storage::printings_unchanged(*old(self), *final(self)),
            Storage::collections_unchanged(*old(self), *final(self)),
            Storage::prices_unchanged(*old(self), *final(self)),
    {
        self.upsert_oracle_row(card);
        let ghost mid = *self;
        let ghost f0 = self.face_rows@;
        let oid = card.oracle_id;
        let n = card.faces.len();
        proof {
            lemma_face_count_bounds(self.face_rows@, oid);
        }
        let mut j: usize = 0;
        while j < n
            invariant
                mid.wf(),
                f0 == mid.face_rows@,
                n == card.faces@.len(),
                0 <= j <= n,
                face_rows_unique(self.face_rows@),
                self.face_indexes_closed(),
                oid == card.oracle_id,
                self.oracle_rows == mid.oracle_rows,
                Storage::printings_unchanged(mid, *self),
                Storage::collections_unchanged(mid, *self),
                Storage::prices_unchanged(mid, *self),
                forall|i: int|
                    0 <= i < j ==> (#[trigger] find_face_row(self.face_rows@, oid, i) matches Some(
                        fr,
                    ) && face_eq(fr.face, card.faces@[i])),
                forall|id: Uuid, i: int|
                    !(id == oid && 0 <= i < j) ==> #[trigger] find_face_row(self.face_rows@, id, i)
                        == find_face_row(f0, id, i),
                forall|id: Uuid|
                    id != oid ==> #[trigger] face_count(self.face_rows@, id) == face_count(f0, id),
                face_count(self.face_rows@, oid) == (if j as int >= face_count(f0, oid) {
                    j as int
                } else {
                    face_count(f0, oid)
                }),
            decreases n - j,
        {
            let face = card.faces[j].clone();
            proof {
                lemma_face_count_bounds(self.face_rows@, oid);
            }
            self.upsert_face_row(oid, j, face);
            j = j + 1;
        }
    }

    /// One face, copied out of its row.
    fn get_face(&self, oid: Uuid, j: usize) -> (r: Option<CardFace>)
        requires
            self.wf(),
        ensures
            match r {
                Some(f) => find_face_row(self.face_rows@, oid, j as int) matches Some(fr)
                    && face_eq(f, fr.face),
                None => find_face_row(self.face_rows@, oid, j as int) is None,
            },
    {
        let n = self.face_rows.len();
        let mut i: usize = 0;
        while i < n
            invariant
                n == self.face_rows@.len(),
                0 <= i <= n,
                forall|k: int|
                    0 <= k < i ==> !((#[trigger] self.face_rows@[k]).oracle_id == oid
                        && self.face_rows@[k].face_index == j),
            decreases n - i,
        {
            if self.face_rows[i].oracle_id == oid && self.face_rows[i].face_index == j {
                proof {
                    assert((face_key(oid, j as int))(self.face_rows@[i as int]));
                    lemma_seq_find_at(self.face_rows@, face_key(oid, j as int), i as int);
                }
                return Some(self.face_rows[i].face.clone());
            }
            i = i + 1;
        }
        proof {
            lemma_seq_find_none(self.face_rows@, face_key(oid, j as int));
        }
        None
    }

    /// Reads one oracle card back: its row, and every face row it owns, in
    /// face-index order. An absent identifier yields nothing.
    pub fn get_oracle(&self, oracle_id: Uuid) -> (r: Option<OracleCard>)
        requires
            self.wf(),
        ensures
            match r {
                Some(c) => {
                    &&& find_oracle_row(self.oracle_rows@, oracle_id) matches Some(row)
                        && row_card_eq(row, c)
                    &&& c.oracle_id == oracle_id
                    &&& c.faces@.len() == face_count(self.face_rows@, oracle_id)
                    &&& forall|i: int|
                        0 <= i < c.faces@.len() ==> (#[trigger] find_face_row(
                            self.face_rows@,
                            oracle_id,
                            i,
                        ) matches Some(fr) && face_eq(c.faces@[i], fr.face))
                },
                None => find_oracle_row(self.oracle_rows@, oracle_id) is None,
            },
    {
        let n = self.oracle_rows.len();
        let mut i: usize = 0;
        while i < n
            invariant
                self.wf(),
                n == self.oracle_rows@.len(),
                0 <= i <= n,
                forall|k: int| 0 <= k < i ==> (#[trigger] self.oracle_rows@[k]).oracle_id
                    != oracle_id,
            decreases n - i,
        {
            if self.oracle_rows[i].oracle_id == oracle_id {
                proof {
                    assert((oracle_key(oracle_id))(self.oracle_rows@[i as int]));
                    lemma_seq_find_at(self.oracle_rows@, oracle_key(oracle_id), i as int);
                }
                let row = &self.oracle_rows[i];
                let mut faces: Vec<CardFace> = Vec::new();
                let mut j: usize = 0;
                let nf = self.face_rows.len();
                proof {
                    lemma_face_count_bounds(self.face_rows@, oracle_id);
                }
                loop
                    invariant_except_break
                        self.wf(),
                        nf == self.face_rows@.len(),
                        faces@.len() == j,
                        j as int <= face_count(self.face_rows@, oracle_id),
                        face_count(self.face_rows@, oracle_id) <= self.face_rows@.len(),
                        forall|k: int|
                            0 <= k < j ==> (#[trigger] find_face_row(
                                self.face_rows@,
                                oracle_id,
                                k,
                            ) matches Some(fr) && face_eq(faces@[k], fr.face)),
                    ensures
                        faces@.len() == face_count(self.face_rows@, oracle_id),
                        forall|k: int|
                            0 <= k < faces@.len() ==> (#[trigger] find_face_row(
                                self.face_rows@,
                                oracle_id,
                                k,
                            ) matches Some(fr) && face_eq(faces@[k], fr.face)),
                    decreases face_count(self.face_rows@, oracle_id) - j,
                {
                    match self.get_face(oracle_id, j) {
                        Some(f) => {
                            proof {
                                assert(find_face_row(self.face_rows@, oracle_id, j as int)
                                    is Some);
                                assert((j as int) < face_count(self.face_rows@, oracle_id));
                            }
                            faces.push(f);
                            j = j + 1;
                        },
                        None => {
                            proof {
                                assert(find_face_row(self.face_rows@, oracle_id, j as int)
                                    is None);
                                assert(!((j as int) < face_count(self.face_rows@, oracle_id)));
                            }
                            break ;
                        },
                    }
                }
                return Some(
                    OracleCard {
                        oracle_id,
                        layout: row.layout.clone(),
                        faces,
                        color_identity: row.color_identity,
                        keywords: clone_keywords(&row.keywords),
                        legalities: row.legalities.clone(),
                        edh_rank: row.edh_rank,
                        reserved: row.reserved,
                    },
                )
            }
            i = i + 1;
        }
        proof {
            lemma_seq_find_none(self.oracle_rows@, oracle_key(oracle_id));
        }
        None
    }
}

// ---------------------------------------------------------------------------
// Collections.
// ---------------------------------------------------------------------------

/// The entries belonging to one collection, in table order.
pub open spec fn entries_of(s: Seq<CollectionEntry>, cid: Uuid) -> Seq<CollectionEntry>
    decreases s.len(),
{
    if s.len() == 0 {
        Seq::empty()
    } else {
        entries_of(s.drop_last(), cid) + (if s.last().collection_id == cid {
            seq![s.last()]
        } else {
            Seq::empty()
        })
    }
}

impl Storage {
    /// Creates a collection under a freshly generated identifier. The
    /// insert fails, changing nothing, in the unlikely event the fresh
    /// identifier is already taken.
    pub fn create_collection(&mut self, name: &str, description: Option<&str>) -> (r: Result<
        Collection,
        DbError,
    >)
        requires
            old(self).wf(),
        ensures
            final(self).wf(),
            Storage::cards_unchanged(*old(self), *final(self)),
            Storage::printings_unchanged(*old(self), *final(self)),
            Storage::prices_unchanged(*old(self), *final(self)),
            final(self).entry_rows == old(self).entry_rows,
            match r {
                Ok(c) => {
                    &&& find_collection_row(old(self).collection_rows@, c.id) is None
                    &&& c.name@ == name@
                    &&& (match (c.description, description) {
                        (Option::Some(x), Option::Some(y)) => x@ == y@,
                        (Option::None, Option::None) => true,
                        _ => false,
                    })
                    &&& c.entries@.len() == 0
                    &&& find_collection_row(final(self).collection_rows@, c.id) matches Some(row)
                        && row.id == c.id && row.name@ == name@ && opt_string_eq(
                        row.description,
                        c.description,
                    )
                    &&& forall|k: Uuid|
                        k != c.id ==> #[trigger] find_collection_row(
                            final(self).collection_rows@,
                            k,
                        ) == find_collection_row(old(self).collection_rows@, k)
                },
                Err(e) => e matches DbError::Sql(_) && final(self).collection_rows
                    == old(self).collection_rows,
            },
    {
        let id = crate::external::fresh_uuid();
        self.create_collection_with_id(id, name, description)
    }

    /// Creates a collection under the given identifier: the insert
    /// succeeds exactly when the identifier is not yet taken, and fails
    /// as the engine's key constraint would, changing nothing.
    pub fn create_collection_with_id(&mut self, id: Uuid, name: &str, description: Option<&str>) -> (r: Result<
        Collection,
        DbError,
    >)
        requires
            old(self).wf(),
        ensures
            final(self).wf(),
            Storage::cards_unchanged(*old(self), *final(self)),
            Storage::printings_unchanged(*old(self), *final(self)),
            Storage::prices_unchanged(*old(self), *final(self)),
            final(self).entry_rows == old(self).entry_rows,
            match r {
                Ok(c) => {
                    &&& find_collection_row(old(self).collection_rows@, id) is None
                    &&& c.id == id
                    &&& c.name@ == name@
                    &&& (match (c.description, description) {
                        (Option::Some(x), Option::Some(y)) => x@ == y@,
                        (Option::None, Option::None) => true,
                        _ => false,
                    })
                    &&& c.entries@.len() == 0
                    &&& find_collection_row(final(self).collection_rows@, id) matches Some(row)
                        && row.id == id && row.name@ == name@ && opt_string_eq(
                        row.description,
                        c.description,
                    )
                    &&& forall|k: Uuid|
                        k != id ==> #[trigger] find_collection_row(
                            final(self).collection_rows@,
                            k,
                        ) == find_collection_row(old(self).collection_rows@, k)
                },
                Err(e) => {
                    &&& find_collection_row(old(self).collection_rows@, id) is Some
                    &&& e matches DbError::Sql(_)
                    &&& final(self).collection_rows == old(self).collection_rows
                },
            },
    {
        let ghost s0 = self.collection_rows@;
        let n = self.collection_rows.len();
        let mut i: usize = 0;
        while i < n
            invariant
                old(self).wf(),
                *self == *old(self),
                self.collection_rows@ == s0,
                s0 == old(self).collection_rows@,
                n == s0.len(),
                0 <= i <= n,
                forall|k: int| 0 <= k < i ==> (#[trigger] s0[k]).id != id,
            decreases n - i,
        {
            if self.collection_rows[i].id == id {
                proof {
                    assert((collection_key(id))(s0[i as int]));
                    lemma_seq_find_at(s0, collection_key(id), i as int);
                }
                return Err(DbError::Sql(String::from_str("collection id already exists")));
            }
            i = i + 1;
        }
        let desc: Option<String> = match description {
            Some(d) => Some(String::from_str(d)),
            None => None,
        };
        let row = CollectionRow { id, name: String::from_str(name), description: clone_opt_string(&desc) };
        let ghost v = row;
        self.collection_rows.push(row);
        proof {
            let u = self.collection_rows@;
            assert(u == s0.push(v));
            lemma_seq_find_none(s0, collection_key(id));
            lemma_seq_find_push(s0, v, collection_key(id));
            assert((collection_key(id))(v));
            assert forall|k: Uuid| k != id implies #[trigger] find_collection_row(u, k)
                == find_collection_row(s0, k) by {
                assert(!(collection_key(k))(v));
                lemma_seq_find_push(s0, v, collection_key(k));
            }
            assert forall|a: int, b: int| 0 <= a < b < u.len() implies (#[trigger] u[a]).id != (
            #[trigger] u[b]).id by {
                if b < s0.len() {
                    assert(s0[a].id != s0[b].id);
                } else {
                    assert(u[b] == v);
                    assert(u[a] == s0[a]);
                }
            }
        }
        Ok(Collection { id, name: String::from_str(name), description: desc, entries: Vec::new() })
    }

    /// Deletes the collection row with the given identifier, if any.
    /// Entry rows are not touched: whether they are cascade-removed is a
    /// property of the storage schema, not of this call.
    pub fn delete_collection(&mut self, id: Uuid)
        requires
            old(self).wf(),
        ensures
            final(self).wf(),
            find_collection_row(final(self).collection_rows@, id) is None,
            forall|k: Uuid|
                k != id ==> #[trigger] find_collection_row(final(self).collection_rows@, k)
                    == find_collection_row(old(self).collection_rows@, k),
            final(self).entry_rows == old(self).entry_rows,
            Storage::cards_unchanged(*old(self), *final(self)),
            Storage::printings_unchanged(*old(self), *final(self)),
            Storage::prices_unchanged(*old(self), *final(self)),
    {
        let ghost s0 = self.collection_rows@;
        let n = self.collection_rows.len();
        let mut i: usize = 0;
        while i < n
            invariant
                old(self).wf(),
                *self == *old(self),
                self.collection_rows@ == s0,
                s0 == old(self).collection_rows@,
                n == s0.len(),
                0 <= i <= n,
                forall|k: int| 0 <= k < i ==> (#[trigger] s0[k]).id != id,
            decreases n - i,
        {
            if self.collection_rows[i].id == id {
                self.collection_rows.remove(i);
                proof {
                    let u = self.collection_rows@;
                    assert(u == s0.remove(i as int));
                    assert forall|k: int| 0 <= k < u.len() implies (#[trigger] u[k]).id != id by {
                        if k < i as int {
                            assert(u[k] == s0[k]);
                        } else {
                            assert(u[k] == s0[k + 1]);
                            assert(s0[i as int].id == id);
                            assert(s0[i as int].id != s0[k + 1].id);
                        }
                    }
                    assert forall|k: int| 0 <= k < u.len() implies !(collection_key(id))(
                        #[trigger] u[k],
                    ) by {}
                    lemma_seq_find_none(u, collection_key(id));
                    assert forall|k: Uuid| k != id implies #[trigger] find_collection_row(u, k)
                        == find_collection_row(s0, k) by {
                        assert(!(collection_key(k))(s0[i as int]));
                        lemma_seq_find_remove_other(s0, i as int, collection_key(k));
                    }
                    assert forall|a: int, b: int| 0 <= a < b < u.len() implies (
                    #[trigger] u[a]).id != (#[trigger] u[b]).id by {
                        let a0 = if a < i as int { a } else { a + 1 };
                        let b0 = if b < i as int { b } else { b + 1 };
                        assert(u[a] == s0[a0] && u[b] == s0[b0]);
                        assert(s0[a0].id != s0[b0].id);
                    }
                }
                return ;
            }
            i = i + 1;
        }
        proof {
            lemma_seq_find_none(s0, collection_key(id));
        }
    }

    /// Every collection row, each with an empty entry list: listing is
    /// cheap, detail comes from reading one collection.
    pub fn list_collections(&self) -> (r: Vec<Collection>)
        requires
            self.wf(),
        ensures
            r@.len() == self.collection_rows@.len(),
            forall|i: int|
                0 <= i < r@.len() ==> (#[trigger] r@[i]).id == self.collection_rows@[i].id
                    && r@[i].name@ == self.collection_rows@[i].name@ && opt_string_eq(
                    r@[i].description,
                    self.collection_rows@[i].description,
                ) && r@[i].entries@.len() == 0,
    {
        let mut r: Vec<Collection> = Vec::new();
        let n = self.collection_rows.len();
        let mut i: usize = 0;
        while i < n
            invariant
                n == self.collection_rows@.len(),
                0 <= i <= n,
                r@.len() == i,
                forall|k: int|
                    0 <= k < i ==> (#[trigger] r@[k]).id == self.collection_rows@[k].id
                        && r@[k].name@ == self.collection_rows@[k].name@ && opt_string_eq(
                        r@[k].description,
                        self.collection_rows@[k].description,
                    ) && r@[k].entries@.len() == 0,
            decreases n - i,
        {
            let row = &self.collection_rows[i];
            r.push(
                Collection {
                    id: row.id,
                    name: row.name.clone(),
                    description: clone_opt_string(&row.description),
                    entries: Vec::new(),
                },
            );
            i = i + 1;
        }
        r
    }

    /// Reads one collection with all its entries, in table order.
    pub fn get_collection(&self, id: Uuid) -> (r: Option<Collection>)
        requires
            self.wf(),
        ensures
            match r {
                Some(c) => {
                    &&& find_collection_row(self.collection_rows@, id) matches Some(row) && c.id
                        == id && row.id == id && c.name@ == row.name@ && opt_string_eq(
                        c.description,
                        row.description,
                    )
                    &&& c.entries@.len() == entries_of(self.entry_rows@, id).len()
                    &&& forall|k: int|
                        0 <= k < c.entries@.len() ==> entry_eq(
                            #[trigger] c.entries@[k],
                            entries_of(self.entry_rows@, id)[k],
                        )
                },
                None => find_collection_row(self.collection_rows@, id) is None,
            },
    {
        let n = self.collection_rows.len();
        let mut i: usize = 0;
        while i < n
            invariant
                self.wf(),
                n == self.collection_rows@.len(),
                0 <= i <= n,
                forall|k: int| 0 <= k < i ==> (#[trigger] self.collection_rows@[k]).id != id,
            decreases n - i,
        {
            if self.collection_rows[i].id == id {
                proof {
                    assert((collection_key(id))(self.collection_rows@[i as int]));
                    lemma_seq_find_at(self.collection_rows@, collection_key(id), i as int);
                }
                let row = &self.collection_rows[i];
                let mut entries: Vec<CollectionEntry> = Vec::new();
                let m = self.entry_rows.len();
                let mut j: usize = 0;
                while j < m
                    invariant
                        m == self.entry_rows@.len(),
                        0 <= j <= m,
                        entries@.len() == entries_of(self.entry_rows@.take(j as int), id).len(),
                        forall|k: int|
                            0 <= k < entries@.len() ==> entry_eq(
                                #[trigger] entries@[k],
                                entries_of(self.entry_rows@.take(j as int), id)[k],
                            ),
                    decreases m - j,
                {
                    proof {
                        assert(self.entry_rows@.take(j + 1).drop_last() =~= self.entry_rows@.take(
                            j as int,
                        ));
                        assert(self.entry_rows@.take(j + 1).last() == self.entry_rows@[j as int]);
                    }
                    if self.entry_rows[j].collection_id == id {
                        entries.push(self.entry_rows[j].clone());
                    }
                    j = j + 1;
                }
                proof {
                    assert(self.entry_rows@.take(m as int) =~= self.entry_rows@);
                }
                return Some(
                    Collection {
                        id,
                        name: row.name.clone(),
                        description: clone_opt_string(&row.description),
                        entries,
                    },
                );
            }
            i = i + 1;
        }
        proof {
            lemma_seq_find_none(self.collection_rows@, collection_key(id));
        }
        None
    }

    /// Writes or replaces the entry row keyed by (collection, printing,
    /// condition, foil); on a repeated key, quantity and notes are
    /// overwritten, never summed.
    pub fn upsert_card(&mut self, entry: &CollectionEntry)
        requires
            old(self).wf(),
        ensures
            final(self).wf(),
            find_entry_row(
                final(self).entry_rows@,
                entry.collection_id,
                entry.printing_id,
                entry.condition,
                entry.foil,
            ) matches Some(e) && entry_eq(e, *entry),
            forall|cid: Uuid, pid: Uuid, cond: Condition, foil: bool|
                !(cid == entry.collection_id && pid == entry.printing_id && cond == entry.condition
                    && foil == entry.foil) ==> #[trigger] find_entry_row(
                    final(self).entry_rows@,
                    cid,
                    pid,
                    cond,
                    foil,
                ) == find_entry_row(old(self).entry_rows@, cid, pid, cond, foil),
            final(self).entry_rows@.len() <= old(self).entry_rows@.len() + 1,
            final(self).collection_rows == old(self).collection_rows,
            Storage::cards_unchanged(*old(self), *final(self)),
            Storage::printings_unchanged(*old(self), *final(self)),
            Storage::prices_unchanged(*old(self), *final(self)),
    {
        let ghost s0 = self.entry_rows@;
        let ghost key = entry_key(entry.collection_id, entry.printing_id, entry.condition, entry.foil);
        let n = self.entry_rows.len();
        let mut i: usize = 0;
        while i < n
            invariant
                old(self).wf(),
                *self == *old(self),
                self.entry_rows@ == s0,
                s0 == old(self).entry_rows@,
                key == entry_key(
                    entry.collection_id,
                    entry.printing_id,
                    entry.condition,
                    entry.foil,
                ),
                n == s0.len(),
                0 <= i <= n,
                forall|k: int| 0 <= k < i ==> !key(#[trigger] s0[k]),
            decreases n - i,
        {
            if self.entry_rows[i].collection_id == entry.collection_id
                && self.entry_rows[i].printing_id == entry.printing_id
                && self.entry_rows[i].condition == entry.condition && self.entry_rows[i].foil
                == entry.foil {
                let ec = entry.clone();
                let ghost v = ec;
                self.entry_rows[i] = ec;
                proof {
                    let u = self.entry_rows@;
                    assert(u == s0.update(i as int, v));
                    assert(key(u[i as int]));
                    lemma_seq_find_at(u, key, i as int);
                    assert forall|cid: Uuid, pid: Uuid, cond: Condition, foil: bool|
                        !(cid == entry.collection_id && pid == entry.printing_id && cond
                            == entry.condition && foil == entry.foil)
                        implies #[trigger] find_entry_row(u, cid, pid, cond, foil)
                        == find_entry_row(s0, cid, pid, cond, foil) by {
                        let q = entry_key(cid, pid, cond, foil);
                        assert(!q(v));
                        assert(!q(s0[i as int]));
                        lemma_seq_find_update_other(s0, i as int, v, q);
                    }
                    assert forall|a: int, b: int| 0 <= a < b < u.len() implies !((
                    #[trigger] u[a]).collection_id == (#[trigger] u[b]).collection_id
                        && u[a].printing_id == u[b].printing_id && u[a].condition
                        == u[b].condition && u[a].foil == u[b].foil) by {
                        assert(!(s0[a].collection_id == s0[b].collection_id && s0[a].printing_id
                            == s0[b].printing_id && s0[a].condition == s0[b].condition
                            && s0[a].foil == s0[b].foil));
                    }
                }
                return ;
            }
            i = i + 1;
        }
        let ec = entry.clone();
        let ghost v = ec;
        self.entry_rows.push(ec);
        proof {
            let u = self.entry_rows@;
            assert(u == s0.push(v));
            lemma_seq_find_none(s0, key);
            lemma_seq_find_push(s0, v, key);
            assert(key(v));
            assert forall|cid: Uuid, pid: Uuid, cond: Condition, foil: bool|
                !(cid == entry.collection_id && pid == entry.printing_id && cond
                    == entry.condition && foil == entry.foil) implies #[trigger] find_entry_row(
                u,
                cid,
                pid,
                cond,
                foil,
            ) == find_entry_row(s0, cid, pid, cond, foil) by {
                let q = entry_key(cid, pid, cond, foil);
                assert(!q(v));
                lemma_seq_find_push(s0, v, q);
            }
            assert forall|a: int, b: int| 0 <= a < b < u.len() implies !((
            #[trigger] u[a]).collection_id == (#[trigger] u[b]).collection_id && u[a].printing_id
                == u[b].printing_id && u[a].condition == u[b].condition && u[a].foil
                == u[b].foil) by {
                if b < s0.len() {
                    assert(!(s0[a].collection_id == s0[b].collection_id && s0[a].printing_id
                        == s0[b].printing_id && s0[a].condition == s0[b].condition && s0[a].foil
                        == s0[b].foil));
                } else {
                    assert(u[b] == v);
                    assert(u[a] == s0[a]);
                }
            }
        }
    }

    /// Deletes exactly the entry row matching all four key columns; rows
    /// for the same printing at another condition or foil state stay.
    pub fn remove_card(&mut self, collection_id: Uuid, printing_id: Uuid, condition: Condition, foil: bool)
        requires
            old(self).wf(),
        ensures
            final(self).wf(),
            find_entry_row(final(self).entry_rows@, collection_id, printing_id, condition, foil)
                is None,
            forall|cid: Uuid, pid: Uuid, cond: Condition, f: bool|
                !(cid == collection_id && pid == printing_id && cond == condition && f == foil)
                    ==> #[trigger] find_entry_row(final(self).entry_rows@, cid, pid, cond, f)
                    == find_entry_row(old(self).entry_rows@, cid, pid, cond, f),
            final(self).collection_rows == old(self).collection_rows,
            Storage::cards_unchanged(*old(self), *final(self)),
            Storage::printings_unchanged(*old(self), *final(self)),
            Storage::prices_unchanged(*old(self), *final(self)),
    {
        let ghost s0 = self.entry_rows@;
        let ghost key = entry_key(collection_id, printing_id, condition, foil);
        let n = self.entry_rows.len();
        let mut i: usize = 0;
        while i < n
            invariant
                old(self).wf(),
                *self == *old(self),
                self.entry_rows@ == s0,
                s0 == old(self).entry_rows@,
                key == entry_key(collection_id, printing_id, condition, foil),
                n == s0.len(),
                0 <= i <= n,
                forall|k: int| 0 <= k < i ==> !key(#[trigger] s0[k]),
            decreases n - i,
        {
            if self.entry_rows[i].collection_id == collection_id
                && self.entry_rows[i].printing_id == printing_id && self.entry_rows[i].condition
                == condition && self.entry_rows[i].foil == foil {
                self.entry_rows.remove(i);
                proof {
                    let u = self.entry_rows@;
                    assert(u == s0.remove(i as int));
                    assert forall|k: int| 0 <= k < u.len() implies !key(#[trigger] u[k]) by {
                        if k < i as int {
                            assert(u[k] == s0[k]);
                        } else {
                            assert(u[k] == s0[k + 1]);
                            assert(key(s0[i as int]));
                            assert(!(s0[i as int].collection_id == s0[k + 1].collection_id && s0[
                                i as int].printing_id == s0[k + 1].printing_id && s0[
                                i as int].condition == s0[k + 1].condition && s0[i as int].foil
                                == s0[k + 1].foil));
                        }
                    }
                    lemma_seq_find_none(u, key);
                    assert forall|cid: Uuid, pid: Uuid, cond: Condition, f: bool|
                        !(cid == collection_id && pid == printing_id && cond == condition && f
                            == foil) implies #[trigger] find_entry_row(u, cid, pid, cond, f)
                        == find_entry_row(s0, cid, pid, cond, f) by {
                        let q = entry_key(cid, pid, cond, f);
                        assert(!q(s0[i as int]));
                        lemma_seq_find_remove_other(s0, i as int, q);
                    }
                    assert forall|a: int, b: int| 0 <= a < b < u.len() implies !((
                    #[trigger] u[a]).collection_id == (#[trigger] u[b]).collection_id
                        && u[a].printing_id == u[b].printing_id && u[a].condition
                        == u[b].condition && u[a].foil == u[b].foil) by {
                        let a0 = if a < i as int { a } else { a + 1 };
                        let b0 = if b < i as int { b } else { b + 1 };
                        assert(u[a] == s0[a0] && u[b] == s0[b0]);
                        assert(!(s0[a0].collection_id == s0[b0].collection_id && s0[
                            a0].printing_id == s0[b0].printing_id && s0[a0].condition == s0[
                            b0].condition && s0[a0].foil == s0[b0].foil));
                    }
                }
                return ;
            }
            i = i + 1;
        }
        proof {
            lemma_seq_find_none(s0, key);
        }
    }
}

// ---------------------------------------------------------------------------
// Prices.
// ---------------------------------------------------------------------------

/// The snapshot with the greatest fetch time among a printing's rows.
pub open spec fn latest_snapshot(s: Seq<SnapshotRow>, pid: Uuid) -> Option<PriceSnapshot>
    decreases s.len(),
{
    if s.len() == 0 {
        None
    } else {
        let rest = latest_snapshot(s.drop_last(), pid);
        if s.last().printing_id == pid {
            match rest {
                None => Some(s.last().snapshot),
                Some(b) => if s.last().snapshot.fetched_at.millis > b.fetched_at.millis {
                    Some(s.last().snapshot)
                } else {
                    Some(b)
                },
            }
        } else {
            rest
        }
    }
}

pub proof fn lemma_latest_snapshot_wf(s: Seq<SnapshotRow>, pid: Uuid)
    requires
        snapshots_wf(s),
    ensures
        match latest_snapshot(s, pid) {
            Some(sn) => price_snapshot_wf(sn),
            None => true,
        },
    decreases s.len(),
{
    if s.len() > 0 {
        assert forall|i: int| 0 <= i < s.drop_last().len() implies price_snapshot_wf((
        #[trigger] s.drop_last()[i]).snapshot) by {
            assert(s.drop_last()[i] == s[i]);
        }
        lemma_latest_snapshot_wf(s.drop_last(), pid);
        assert(price_snapshot_wf(s[s.len() - 1].snapshot));
    }
}

/// What one entry is worth per copy: its printing's latest snapshot, the
/// foil price (falling back to the plain price) for foil entries, the
/// plain price otherwise; nothing when no price is on file.
pub open spec fn entry_unit_price(e: CollectionEntry, snaps: Seq<SnapshotRow>) -> Option<
    DecimalValue,
> {
    match latest_snapshot(snaps, e.printing_id) {
        None => None,
        Some(sn) => if e.foil {
            match sn.usd_foil {
                Some(d) => Some(d),
                None => sn.usd,
            }
        } else {
            sn.usd
        },
    }
}

/// The exact product of an amount and a quantity, or nothing on overflow.
pub open spec fn spec_mul_qty(d: DecimalValue, q: u32) -> Option<DecimalValue> {
    if -MANTISSA_LIMIT <= d.mantissa * q <= MANTISSA_LIMIT {
        Some((DecimalValue { mantissa: (d.mantissa * q) as i128, scale: d.scale }))
    } else {
        None
    }
}

/// The exact sum of two amounts, or nothing on overflow.
pub open spec fn spec_add_dec(a: DecimalValue, b: DecimalValue) -> Option<DecimalValue> {
    if -MANTISSA_LIMIT <= a.spec_add_mantissa(b) <= MANTISSA_LIMIT {
        Some(
            (DecimalValue {
                mantissa: a.spec_add_mantissa(b) as i128,
                scale: a.spec_add_scale(b) as u32,
            }),
        )
    } else {
        None
    }
}

/// The total worth of a run of entries: each entry's unit price times its
/// quantity, summed left to right from an exact zero; an entry without a
/// price contributes nothing; overflow anywhere yields nothing.
pub open spec fn collection_value_fold(entries: Seq<CollectionEntry>, snaps: Seq<SnapshotRow>) -> Option<
    DecimalValue,
>
    decreases entries.len(),
{
    if entries.len() == 0 {
        Some((DecimalValue { mantissa: 0, scale: 0 as u32 }))
    } else {
        match collection_value_fold(entries.drop_last(), snaps) {
            None => None,
            Some(tot) => match entry_unit_price(entries.last(), snaps) {
                None => Some(tot),
                Some(p) => match spec_mul_qty(p, entries.last().quantity) {
                    None => None,
                    Some(v) => spec_add_dec(tot, v),
                },
            },
        }
    }
}

proof fn lemma_entries_of_concat(a: Seq<CollectionEntry>, b: Seq<CollectionEntry>, cid: Uuid)
    ensures
        entries_of(a + b, cid) == entries_of(a, cid) + entries_of(b, cid),
    decreases b.len(),
{
    if b.len() == 0 {
        assert(a + b =~= a);
        assert(entries_of(b, cid) =~= Seq::<CollectionEntry>::empty());
        assert(entries_of(a, cid) + entries_of(b, cid) =~= entries_of(a, cid));
    } else {
        assert((a + b).drop_last() =~= a + b.drop_last());
        assert((a + b).last() == b.last());
        lemma_entries_of_concat(a, b.drop_last(), cid);
        assert(entries_of(a, cid) + entries_of(b.drop_last(), cid) + (if b.last().collection_id
            == cid {
            seq![b.last()]
        } else {
            Seq::<CollectionEntry>::empty()
        }) =~= entries_of(a, cid) + entries_of(b, cid));
    }
}

proof fn lemma_fold_none_extends(e: Seq<CollectionEntry>, rest: Seq<CollectionEntry>, snaps: Seq<SnapshotRow>)
    requires
        collection_value_fold(e, snaps) is None,
    ensures
        collection_value_fold(e + rest, snaps) is None,
    decreases rest.len(),
{
    if rest.len() == 0 {
        assert(e + rest =~= e);
    } else {
        assert((e + rest).drop_last() =~= e + rest.drop_last());
        lemma_fold_none_extends(e, rest.drop_last(), snaps);
    }
}

impl Storage {
    /// Writes or replaces the snapshot row keyed by (printing, fetch
    /// time): re-inserting at the same moment overwrites, never
    /// duplicates.
    pub fn insert_snapshot(&mut self, printing_id: Uuid, snapshot: &PriceSnapshot)
        requires
            old(self).wf(),
            price_snapshot_wf(*snapshot),
        ensures
            final(self).wf(),
            find_snapshot_row(final(self).snapshot_rows@, printing_id, snapshot.fetched_at)
                == Some(SnapshotRow { printing_id, snapshot: *snapshot }),
            forall|pid: Uuid, at: Timestamp|
                !(pid == printing_id && at == snapshot.fetched_at) ==> #[trigger] find_snapshot_row(
                    final(self).snapshot_rows@,
                    pid,
                    at,
                ) == find_snapshot_row(old(self).snapshot_rows@, pid, at),
            Storage::cards_unchanged(*old(self), *final(self)),
            Storage::printings_unchanged(*old(self), *final(self)),
            Storage::collections_unchanged(*old(self), *final(self)),
    {
        let ghost s0 = self.snapshot_rows@;
        let ghost key = snapshot_key(printing_id, snapshot.fetched_at);
        let n = self.snapshot_rows.len();
        let mut i: usize = 0;
        while i < n
            invariant
                old(self).wf(),
                price_snapshot_wf(*snapshot),
                *self == *old(self),
                self.snapshot_rows@ == s0,
                s0 == old(self).snapshot_rows@,
                key == snapshot_key(printing_id, snapshot.fetched_at),
                n == s0.len(),
                0 <= i <= n,
                forall|k: int| 0 <= k < i ==> !key(#[trigger] s0[k]),
            decreases n - i,
        {
            if self.snapshot_rows[i].printing_id == printing_id
                && self.snapshot_rows[i].snapshot.fetched_at.millis
                == snapshot.fetched_at.millis {
                let v = SnapshotRow { printing_id, snapshot: *snapshot };
                self.snapshot_rows[i] = v;
                proof {
                    let u = self.snapshot_rows@;
                    assert(u == s0.update(i as int, v));
                    assert(key(u[i as int]));
                    lemma_seq_find_at(u, key, i as int);
                    assert forall|pid: Uuid, at: Timestamp|
                        !(pid == printing_id && at == snapshot.fetched_at)
                        implies #[trigger] find_snapshot_row(u, pid, at) == find_snapshot_row(
                        s0,
                        pid,
                        at,
                    ) by {
                        let q = snapshot_key(pid, at);
                        assert(!q(v));
                        assert(!q(s0[i as int]));
                        lemma_seq_find_update_other(s0, i as int, v, q);
                    }
                    assert forall|a: int, b: int| 0 <= a < b < u.len() implies !((
                    #[trigger] u[a]).printing_id == (#[trigger] u[b]).printing_id
                        && u[a].snapshot.fetched_at == u[b].snapshot.fetched_at) by {
                        assert(!(s0[a].printing_id == s0[b].printing_id && s0[
                            a].snapshot.fetched_at == s0[b].snapshot.fetched_at));
                    }
                    assert forall|k: int| 0 <= k < u.len() implies price_snapshot_wf((
                    #[trigger] u[k]).snapshot) by {
                        if k != i as int {
                            assert(u[k] == s0[k]);
                        }
                    }
                }
                return ;
            }
            i = i + 1;
        }
        let v = SnapshotRow { printing_id, snapshot: *snapshot };
        self.snapshot_rows.push(v);
        proof {
            let u = self.snapshot_rows@;
            assert(u == s0.push(v));
            lemma_seq_find_none(s0, key);
            lemma_seq_find_push(s0, v, key);
            assert(key(v));
            assert forall|pid: Uuid, at: Timestamp|
                !(pid == printing_id && at == snapshot.fetched_at)
                implies #[trigger] find_snapshot_row(u, pid, at) == find_snapshot_row(
                s0,
                pid,
                at,
            ) by {
                let q = snapshot_key(pid, at);
                assert(!q(v));
                lemma_seq_find_push(s0, v, q);
            }
            assert forall|a: int, b: int| 0 <= a < b < u.len() implies !((
            #[trigger] u[a]).printing_id == (#[trigger] u[b]).printing_id
                && u[a].snapshot.fetched_at == u[b].snapshot.fetched_at) by {
                if b < s0.len() {
                    assert(!(s0[a].printing_id == s0[b].printing_id && s0[a].snapshot.fetched_at
                        == s0[b].snapshot.fetched_at));
                } else {
                    assert(u[b] == v);
                    assert(u[a] == s0[a]);
                }
            }
            assert forall|k: int| 0 <= k < u.len() implies price_snapshot_wf((
            #[trigger] u[k]).snapshot) by {
                if k < s0.len() {
                    assert(u[k] == s0[k]);
                }
            }
        }
    }

    /// The snapshot with the greatest fetch time for one printing.
    pub fn get_latest_price(&self, printing_id: Uuid) -> (r: Option<PriceSnapshot>)
        requires
            self.wf(),
        ensures
            r == latest_snapshot(self.snapshot_rows@, printing_id),
            r matches Some(sn) ==> price_snapshot_wf(sn),
    {
        let n = self.snapshot_rows.len();
        let mut best: Option<PriceSnapshot> = None;
        let mut i: usize = 0;
        while i < n
            invariant
                self.wf(),
                n == self.snapshot_rows@.len(),
                0 <= i <= n,
                best == latest_snapshot(self.snapshot_rows@.take(i as int), printing_id),
            decreases n - i,
        {
            proof {
                assert(self.snapshot_rows@.take(i + 1).drop_last() =~= self.snapshot_rows@.take(
                    i as int,
                ));
                assert(self.snapshot_rows@.take(i + 1).last() == self.snapshot_rows@[i as int]);
            }
            let row = &self.snapshot_rows[i];
            if row.printing_id == printing_id {
                match &best {
                    None => {
                        best = Some(row.snapshot);
                    },
                    Some(b) => {
                        if row.snapshot.fetched_at.millis > b.fetched_at.millis {
                            best = Some(row.snapshot);
                        }
                    },
                }
            }
            i = i + 1;
        }
        proof {
            assert(self.snapshot_rows@.take(n as int) =~= self.snapshot_rows@);
            lemma_latest_snapshot_wf(self.snapshot_rows@, printing_id);
        }
        best
    }

    /// The total worth of one collection: every entry's latest price
    /// (foil entries use the foil price when recorded, else the plain
    /// one) times its quantity, summed exactly; entries without a price
    /// contribute nothing. A sum past the decimal range is an error.
    pub fn get_collection_value(&self, collection_id: Uuid) -> (r: Result<DecimalValue, DbError>)
        requires
            self.wf(),
        ensures
            match r {
                Ok(d) => Some(d) == collection_value_fold(
                    entries_of(self.entry_rows@, collection_id),
                    self.snapshot_rows@,
                ) && d.wf(),
                Err(e) => e matches DbError::Unknown(_) && collection_value_fold(
                    entries_of(self.entry_rows@, collection_id),
                    self.snapshot_rows@,
                ) is None,
            },
    {
        let ghost snaps = self.snapshot_rows@;
        let n = self.entry_rows.len();
        let mut total = DecimalValue::zero();
        let mut i: usize = 0;
        while i < n
            invariant
                self.wf(),
                snaps == self.snapshot_rows@,
                n == self.entry_rows@.len(),
                0 <= i <= n,
                total.wf(),
                Some(total) == collection_value_fold(
                    entries_of(self.entry_rows@.take(i as int), collection_id),
                    snaps,
                ),
            decreases n - i,
        {
            let ghost pre = entries_of(self.entry_rows@.take(i as int), collection_id);
            proof {
                assert(self.entry_rows@.take(i + 1).drop_last() =~= self.entry_rows@.take(
                    i as int,
                ));
                assert(self.entry_rows@.take(i + 1).last() == self.entry_rows@[i as int]);
            }
            let entry = &self.entry_rows[i];
            if entry.collection_id == collection_id {
                let ghost cur = entries_of(self.entry_rows@.take(i + 1), collection_id);
                proof {
                    assert(cur =~= pre + seq![self.entry_rows@[i as int]]);
                    assert(cur.drop_last() =~= pre);
                    assert(cur.last() == self.entry_rows@[i as int]);
                }
                let latest = self.get_latest_price(entry.printing_id);
                let price: Option<DecimalValue> = match latest {
                    None => None,
                    Some(sn) => if entry.foil {
                        match sn.usd_foil {
                            Some(d) => Some(d),
                            None => sn.usd,
                        }
                    } else {
                        sn.usd
                    },
                };
                if let Some(p) = price {
                    let line = match p.checked_mul_u32(entry.quantity) {
                        Some(v) => v,
                        None => {
                            proof {
                                let full = entries_of(self.entry_rows@, collection_id);
                                assert(self.entry_rows@ =~= self.entry_rows@.take(i + 1)
                                    + self.entry_rows@.skip(i + 1));
                                lemma_entries_of_concat(
                                    self.entry_rows@.take(i + 1),
                                    self.entry_rows@.skip(i + 1),
                                    collection_id,
                                );
                                lemma_fold_none_extends(
                                    cur,
                                    entries_of(self.entry_rows@.skip(i + 1), collection_id),
                                    snaps,
                                );
                            }
                            return Err(
                                DbError::Unknown(
                                    String::from_str("collection value out of range"),
                                ),
                            );
                        },
                    };
                    let next = match total.checked_add(line) {
                        Some(t) => t,
                        None => {
                            proof {
                                let full = entries_of(self.entry_rows@, collection_id);
                                assert(self.entry_rows@ =~= self.entry_rows@.take(i + 1)
                                    + self.entry_rows@.skip(i + 1));
                                lemma_entries_of_concat(
                                    self.entry_rows@.take(i + 1),
                                    self.entry_rows@.skip(i + 1),
                                    collection_id,
                                );
                                lemma_fold_none_extends(
                                    cur,
                                    entries_of(self.entry_rows@.skip(i + 1), collection_id),
                                    snaps,
                                );
                            }
                            return Err(
                                DbError::Unknown(
                                    String::from_str("collection value out of range"),
                                ),
                            );
                        },
                    };
                    total = next;
                }
            } else {
                proof {
                    assert(entries_of(self.entry_rows@.take(i + 1), collection_id) =~= pre);
                }
            }
            i = i + 1;
        }
        proof {
            assert(self.entry_rows@.take(n as int) =~= self.entry_rows@);
        }
        Ok(total)
    }
}

// ---------------------------------------------------------------------------
// Card queries.
// ---------------------------------------------------------------------------

/// The printings carrying exactly the given set code, in table order.
pub open spec fn printings_in_set(s: Seq<Printing>, code: Seq<char>) -> Seq<Printing>
    decreases s.len(),
{
    if s.len() == 0 {
        Seq::empty()
    } else {
        printings_in_set(s.drop_last(), code) + (if s.last().set_code@ == code {
            seq![s.last()]
        } else {
            Seq::empty()
        })
    }
}

/// The identifiers of the oracle rows whose legalities map the format to
/// legal, in table order.
pub open spec fn legal_oracle_ids(s: Seq<OracleRow>, fmt: Seq<char>) -> Seq<Uuid>
    decreases s.len(),
{
    if s.len() == 0 {
        Seq::empty()
    } else {
        legal_oracle_ids(s.drop_last(), fmt) + (if legalities_map(
            s.last().legalities.0@,
        ).contains_key(fmt) && legalities_map(s.last().legalities.0@)[fmt] is Legal {
            seq![s.last().oracle_id]
        } else {
            Seq::empty()
        })
    }
}

/// Some face of the oracle identifier holds the query as a substring of
/// its name.
pub open spec fn name_matches(faces: Seq<FaceRow>, oid: Uuid, q: Seq<u8>) -> bool {
    exists|k: int|
        0 <= k < faces.len() && (#[trigger] faces[k]).oracle_id == oid && crate::strutil::bytes_contains(
            vstd::utf8::encode_utf8(faces[k].face.name@),
            q,
        )
}

/// The identifiers of the oracle rows with a face name holding the query,
/// in table order.
pub open spec fn name_match_ids(s: Seq<OracleRow>, faces: Seq<FaceRow>, q: Seq<u8>) -> Seq<Uuid>
    decreases s.len(),
{
    if s.len() == 0 {
        Seq::empty()
    } else {
        name_match_ids(s.drop_last(), faces, q) + (if name_matches(faces, s.last().oracle_id, q) {
            seq![s.last().oracle_id]
        } else {
            Seq::empty()
        })
    }
}

/// The card with this identifier is on file and reads as `c`: its row
/// matches, and `c` carries every face row of the identifier in order.
pub open spec fn card_on_file_as(st: Storage, oid: Uuid, c: OracleCard) -> bool {
    &&& find_oracle_row(st.oracle_rows@, oid) matches Some(row) && row_card_eq(row, c)
    &&& c.oracle_id == oid
    &&& c.faces@.len() == face_count(st.face_rows@, oid)
    &&& (forall|i: int|
        0 <= i < c.faces@.len() ==> (#[trigger] find_face_row(st.face_rows@, oid, i) matches Some(
            fr,
        ) && face_eq(c.faces@[i], fr.face)))
}

proof fn lemma_name_match_ids_prefix(s: Seq<OracleRow>, faces: Seq<FaceRow>, q: Seq<u8>, i: int)
    requires
        0 <= i <= s.len(),
    ensures
        name_match_ids(s.take(i), faces, q).len() <= name_match_ids(s, faces, q).len(),
        forall|j: int|
            0 <= j < name_match_ids(s.take(i), faces, q).len() ==> #[trigger] name_match_ids(
                s,
                faces,
                q,
            )[j] == name_match_ids(s.take(i), faces, q)[j],
    decreases s.len() - i,
{
    if i == s.len() {
        assert(s.take(i) =~= s);
    } else {
        assert(s.take(i + 1).drop_last() =~= s.take(i));
        assert(s.take(i + 1).last() == s[i]);
        lemma_name_match_ids_prefix(s, faces, q, i + 1);
    }
}

impl Storage {
    /// All printings with an exact set-code match, in table order.
    pub fn cards_in_set(&self, set_code: &str) -> (r: Vec<Printing>)
        requires
            self.wf(),
        ensures
            r@.len() == printings_in_set(self.printing_rows@, set_code@).len(),
            forall|i: int|
                0 <= i < r@.len() ==> printing_eq(
                    #[trigger] r@[i],
                    printings_in_set(self.printing_rows@, set_code@)[i],
                ),
    {
        let mut r: Vec<Printing> = Vec::new();
        let n = self.printing_rows.len();
        let mut i: usize = 0;
        while i < n
            invariant
                self.wf(),
                n == self.printing_rows@.len(),
                0 <= i <= n,
                r@.len() == printings_in_set(self.printing_rows@.take(i as int), set_code@).len(),
                forall|k: int|
                    0 <= k < r@.len() ==> printing_eq(
                        #[trigger] r@[k],
                        printings_in_set(self.printing_rows@.take(i as int), set_code@)[k],
                    ),
            decreases n - i,
        {
            proof {
                assert(self.printing_rows@.take(i + 1).drop_last() =~= self.printing_rows@.take(
                    i as int,
                ));
                assert(self.printing_rows@.take(i + 1).last() == self.printing_rows@[i as int]);
            }
            if crate::strutil::str_eq(self.printing_rows[i].set_code.as_str(), set_code) {
                r.push(self.printing_rows[i].clone());
            }
            i = i + 1;
        }
        proof {
            assert(self.printing_rows@.take(n as int) =~= self.printing_rows@);
        }
        r
    }

    /// All oracle cards whose legalities hold the named format exactly
    /// legal, assembled with their faces, in table order.
    pub fn legal_in_format(&self, format: &Format) -> (r: Vec<OracleCard>)
        requires
            self.wf(),
        ensures
            r@.len() == legal_oracle_ids(self.oracle_rows@, format.0@).len(),
            forall|j: int|
                0 <= j < r@.len() ==> card_on_file_as(
                    *self,
                    legal_oracle_ids(self.oracle_rows@, format.0@)[j],
                    #[trigger] r@[j],
                ),
    {
        let mut r: Vec<OracleCard> = Vec::new();
        let n = self.oracle_rows.len();
        let mut i: usize = 0;
        while i < n
            invariant
                self.wf(),
                n == self.oracle_rows@.len(),
                0 <= i <= n,
                r@.len() == legal_oracle_ids(self.oracle_rows@.take(i as int), format.0@).len(),
                forall|j: int|
                    0 <= j < r@.len() ==> card_on_file_as(
                        *self,
                        legal_oracle_ids(self.oracle_rows@.take(i as int), format.0@)[j],
                        #[trigger] r@[j],
                    ),
            decreases n - i,
        {
            proof {
                assert(self.oracle_rows@.take(i + 1).drop_last() =~= self.oracle_rows@.take(
                    i as int,
                ));
                assert(self.oracle_rows@.take(i + 1).last() == self.oracle_rows@[i as int]);
            }
            let row = &self.oracle_rows[i];
            if row.legalities.is_legal_in(format) {
                match self.get_oracle(row.oracle_id) {
                    Some(c) => {
                        r.push(c);
                    },
                    None => {
                        proof {
                            assert forall|k: int| 0 <= k < i implies !(oracle_key(row.oracle_id))(
                                #[trigger] self.oracle_rows@[k],
                            ) by {
                                assert(self.oracle_rows@[k].oracle_id != self.oracle_rows@[
                                    i as int].oracle_id);
                            }
                            lemma_seq_find_at(self.oracle_rows@, oracle_key(row.oracle_id), i as int);
                            assert(false);
                        }
                    },
                }
            }
            i = i + 1;
        }
        proof {
            assert(self.oracle_rows@.take(n as int) =~= self.oracle_rows@);
        }
        r
    }

    /// Whether any face of the identifier holds the query in its name.
    fn any_face_name_contains(&self, oid: Uuid, q: &str) -> (r: bool)
        requires
            self.wf(),
        ensures
            r == name_matches(self.face_rows@, oid, q.spec_bytes()),
    {
        let n = self.face_rows.len();
        let mut i: usize = 0;
        while i < n
            invariant
                self.wf(),
                n == self.face_rows@.len(),
                0 <= i <= n,
                forall|k: int|
                    0 <= k < i ==> !((#[trigger] self.face_rows@[k]).oracle_id == oid
                        && crate::strutil::bytes_contains(
                        vstd::utf8::encode_utf8(self.face_rows@[k].face.name@),
                        q.spec_bytes(),
                    )),
            decreases n - i,
        {
            let fr = &self.face_rows[i];
            if fr.oracle_id == oid {
                if crate::strutil::str_contains(fr.face.name.as_str(), q) {
                    return true;
                }
            }
            i = i + 1;
        }
        false
    }

    /// At most `limit` oracle cards whose face names hold the query as a
    /// substring, in table order, each assembled with its faces.
    pub fn search_name(&self, q: &str, limit: u32) -> (r: Vec<OracleCard>)
        requires
            self.wf(),
        ensures
            ({
                let ids = name_match_ids(self.oracle_rows@, self.face_rows@, q.spec_bytes());
                &&& r@.len() == (if ids.len() <= limit as int {
                    ids.len() as int
                } else {
                    limit as int
                })
                &&& forall|j: int|
                    0 <= j < r@.len() ==> card_on_file_as(*self, ids[j], #[trigger] r@[j])
            }),
    {
        let ghost ids = name_match_ids(self.oracle_rows@, self.face_rows@, q.spec_bytes());
        let mut r: Vec<OracleCard> = Vec::new();
        let n = self.oracle_rows.len();
        let mut i: usize = 0;
        while i < n && r.len() < limit as usize
            invariant
                self.wf(),
                ids == name_match_ids(self.oracle_rows@, self.face_rows@, q.spec_bytes()),
                n == self.oracle_rows@.len(),
                0 <= i <= n,
                r@.len() == name_match_ids(
                    self.oracle_rows@.take(i as int),
                    self.face_rows@,
                    q.spec_bytes(),
                ).len(),
                r@.len() <= limit as int,
                forall|j: int|
                    0 <= j < r@.len() ==> card_on_file_as(
                        *self,
                        name_match_ids(
                            self.oracle_rows@.take(i as int),
                            self.face_rows@,
                            q.spec_bytes(),
                        )[j],
                        #[trigger] r@[j],
                    ),
            decreases n - i,
        {
            proof {
                assert(self.oracle_rows@.take(i + 1).drop_last() =~= self.oracle_rows@.take(
                    i as int,
                ));
                assert(self.oracle_rows@.take(i + 1).last() == self.oracle_rows@[i as int]);
            }
            let row = &self.oracle_rows[i];
            if self.any_face_name_contains(row.oracle_id, q) {
                match self.get_oracle(row.oracle_id) {
                    Some(c) => {
                        r.push(c);
                    },
                    None => {
                        proof {
                            assert forall|k: int| 0 <= k < i implies !(oracle_key(row.oracle_id))(
                                #[trigger] self.oracle_rows@[k],
                            ) by {
                                assert(self.oracle_rows@[k].oracle_id != self.oracle_rows@[
                                    i as int].oracle_id);
                            }
                            lemma_seq_find_at(self.oracle_rows@, oracle_key(row.oracle_id), i as int);
                            assert(false);
                        }
                    },
                }
            }
            i = i + 1;
        }
        proof {
            lemma_name_match_ids_prefix(
                self.oracle_rows@,
                self.face_rows@,
                q.spec_bytes(),
                i as int,
            );
            if i == n {
                assert(self.oracle_rows@.take(n as int) =~= self.oracle_rows@);
            }
        }
        r
    }
}

// ---------------------------------------------------------------------------
// Price history.
// ---------------------------------------------------------------------------

/// The snapshots of one printing, in table order.
pub open spec fn snaps_of(s: Seq<SnapshotRow>, pid: Uuid) -> Seq<PriceSnapshot>
    decreases s.len(),
{
    if s.len() == 0 {
        Seq::empty()
    } else {
        snaps_of(s.drop_last(), pid) + (if s.last().printing_id == pid {
            seq![s.last().snapshot]
        } else {
            Seq::empty()
        })
    }
}

/// Insertion into a newest-first run: the snapshot goes in front of the
/// first strictly older entry.
pub open spec fn insert_desc(s: Seq<PriceSnapshot>, v: PriceSnapshot) -> Seq<PriceSnapshot>
    decreases s.len(),
{
    if s.len() == 0 {
        seq![v]
    } else if v.fetched_at.millis > s[0].fetched_at.millis {
        seq![v] + s
    } else {
        seq![s[0]] + insert_desc(s.skip(1), v)
    }
}

/// The snapshots ordered newest first, by repeated insertion.
pub open spec fn sort_desc(s: Seq<PriceSnapshot>) -> Seq<PriceSnapshot>
    decreases s.len(),
{
    if s.len() == 0 {
        Seq::empty()
    } else {
        insert_desc(sort_desc(s.drop_last()), s.last())
    }
}

pub open spec fn sorted_desc(s: Seq<PriceSnapshot>) -> bool {
    forall|a: int, b: int|
        0 <= a < b < s.len() ==> (#[trigger] s[a]).fetched_at.millis >= (
        #[trigger] s[b]).fetched_at.millis
}

proof fn lemma_insert_desc_len(s: Seq<PriceSnapshot>, v: PriceSnapshot)
    ensures
        insert_desc(s, v).len() == s.len() + 1,
    decreases s.len(),
{
    if s.len() > 0 && !(v.fetched_at.millis > s[0].fetched_at.millis) {
        lemma_insert_desc_len(s.skip(1), v);
    }
}

proof fn lemma_insert_desc_sorted(s: Seq<PriceSnapshot>, v: PriceSnapshot)
    requires
        sorted_desc(s),
    ensures
        sorted_desc(insert_desc(s, v)),
        insert_desc(s, v).len() == s.len() + 1,
        forall|a: int|
            0 <= a < insert_desc(s, v).len() ==> (#[trigger] insert_desc(s, v)[a]) == v || exists|
                b: int,
            | 0 <= b < s.len() && insert_desc(s, v)[a] == s[b],
    decreases s.len(),
{
    lemma_insert_desc_len(s, v);
    let u = insert_desc(s, v);
    if s.len() == 0 {
    } else if v.fetched_at.millis > s[0].fetched_at.millis {
        assert forall|a: int, b: int| 0 <= a < b < u.len() implies (
        #[trigger] u[a]).fetched_at.millis >= (#[trigger] u[b]).fetched_at.millis by {
            if a > 0 {
                assert(u[a] == s[a - 1] && u[b] == s[b - 1]);
            } else {
                assert(u[b] == s[b - 1]);
                assert(s[0].fetched_at.millis >= s[b - 1].fetched_at.millis);
            }
        }
        assert forall|a: int| 0 <= a < u.len() implies (#[trigger] u[a]) == v || exists|b: int|
            0 <= b < s.len() && u[a] == s[b] by {
            if a > 0 {
                assert(u[a] == s[a - 1]);
            }
        }
    } else {
        let t = s.skip(1);
        assert forall|a: int, b: int| 0 <= a < b < t.len() implies (
        #[trigger] t[a]).fetched_at.millis >= (#[trigger] t[b]).fetched_at.millis by {
            assert(t[a] == s[a + 1] && t[b] == s[b + 1]);
        }
        lemma_insert_desc_sorted(t, v);
        let w = insert_desc(t, v);
        assert(u =~= seq![s[0]] + w);
        assert forall|a: int, b: int| 0 <= a < b < u.len() implies (
        #[trigger] u[a]).fetched_at.millis >= (#[trigger] u[b]).fetched_at.millis by {
            if a == 0 {
                assert(u[b] == w[b - 1]);
                assert(w[b - 1] == v || exists|c: int| 0 <= c < t.len() && w[b - 1] == t[c]);
                if w[b - 1] == v {
                    assert(s[0].fetched_at.millis >= v.fetched_at.millis);
                } else {
                    let c = choose|c: int| 0 <= c < t.len() && w[b - 1] == t[c];
                    assert(t[c] == s[c + 1]);
                    assert(s[0].fetched_at.millis >= s[c + 1].fetched_at.millis);
                }
            } else {
                assert(u[a] == w[a - 1] && u[b] == w[b - 1]);
            }
        }
        assert forall|a: int| 0 <= a < u.len() implies (#[trigger] u[a]) == v || exists|b: int|
            0 <= b < s.len() && u[a] == s[b] by {
            if a == 0 {
                assert(u[0] == s[0]);
            } else {
                assert(u[a] == w[a - 1]);
                if w[a - 1] != v {
                    let c = choose|c: int| 0 <= c < t.len() && w[a - 1] == t[c];
                    assert(t[c] == s[c + 1]);
                }
            }
        }
    }
}

/// A newest-first ordering holds of the sorted history.
pub proof fn lemma_sort_desc_sorted(s: Seq<PriceSnapshot>)
    ensures
        sorted_desc(sort_desc(s)),
        sort_desc(s).len() == s.len(),
    decreases s.len(),
{
    if s.len() > 0 {
        lemma_sort_desc_sorted(s.drop_last());
        lemma_insert_desc_sorted(sort_desc(s.drop_last()), s.last());
    }
}

/// Where the new snapshot goes: right before the first strictly older
/// entry.
proof fn lemma_insert_desc_at(s: Seq<PriceSnapshot>, v: PriceSnapshot, k: int)
    requires
        0 <= k <= s.len(),
        forall|a: int| 0 <= a < k ==> !(v.fetched_at.millis > (#[trigger] s[a]).fetched_at.millis),
        k == s.len() || v.fetched_at.millis > s[k].fetched_at.millis,
    ensures
        insert_desc(s, v) == s.take(k) + seq![v] + s.skip(k),
    decreases k,
{
    if k == 0 {
        if s.len() == 0 {
            assert(s.take(0) + seq![v] + s.skip(0) =~= seq![v]);
        } else {
            assert(s.take(0) + seq![v] + s.skip(0) =~= seq![v] + s);
        }
    } else {
        assert(!(v.fetched_at.millis > s[0].fetched_at.millis));
        let t = s.skip(1);
        assert forall|a: int| 0 <= a < k - 1 implies !(v.fetched_at.millis > (
        #[trigger] t[a]).fetched_at.millis) by {
            assert(t[a] == s[a + 1]);
        }
        if k - 1 < t.len() {
            assert(t[k - 1] == s[k as int]);
        }
        lemma_insert_desc_at(t, v, k - 1);
        assert(seq![s[0]] + (t.take(k - 1) + seq![v] + t.skip(k - 1)) =~= s.take(k) + seq![v]
            + s.skip(k));
    }
}

impl Storage {
    /// All snapshots of one printing, newest first.
    pub fn get_price_history(&self, printing_id: Uuid) -> (r: Vec<PriceSnapshot>)
        requires
            self.wf(),
        ensures
            r@ == sort_desc(snaps_of(self.snapshot_rows@, printing_id)),
            sorted_desc(r@),
            r@.len() == snaps_of(self.snapshot_rows@, printing_id).len(),
    {
        let mut r: Vec<PriceSnapshot> = Vec::new();
        let n = self.snapshot_rows.len();
        let mut i: usize = 0;
        while i < n
            invariant
                self.wf(),
                n == self.snapshot_rows@.len(),
                0 <= i <= n,
                r@ == sort_desc(snaps_of(self.snapshot_rows@.take(i as int), printing_id)),
                r@.len() == snaps_of(self.snapshot_rows@.take(i as int), printing_id).len(),
            decreases n - i,
        {
            let ghost pre = snaps_of(self.snapshot_rows@.take(i as int), printing_id);
            proof {
                assert(self.snapshot_rows@.take(i + 1).drop_last() =~= self.snapshot_rows@.take(
                    i as int,
                ));
                assert(self.snapshot_rows@.take(i + 1).last() == self.snapshot_rows@[i as int]);
                lemma_sort_desc_sorted(pre);
            }
            let row = &self.snapshot_rows[i];
            if row.printing_id == printing_id {
                proof {
                    assert(snaps_of(self.snapshot_rows@.take(i + 1), printing_id) =~= pre + seq![
                        row.snapshot,
                    ]);
                    assert((pre + seq![row.snapshot]).drop_last() =~= pre);
                    assert((pre + seq![row.snapshot]).last() == row.snapshot);
                }
                // Find where the snapshot goes: before the first strictly
                // older entry.
                let v = row.snapshot;
                let mut k: usize = 0;
                let rl = r.len();
                while k < rl && !(v.fetched_at.millis > r[k].fetched_at.millis)
                    invariant
                        rl == r@.len(),
                        0 <= k <= rl,
                        forall|a: int|
                            0 <= a < k ==> !(v.fetched_at.millis > (
                            #[trigger] r@[a]).fetched_at.millis),
                        v == row.snapshot,
                    decreases rl - k,
                {
                    k = k + 1;
                }
                proof {
                    lemma_insert_desc_at(r@, v, k as int);
                }
                let ghost rpre = r@;
                r.insert(k, v);
                proof {
                    assert(r@ =~= rpre.take(k as int) + seq![v] + rpre.skip(k as int));
                }
            } else {
                proof {
                    assert(snaps_of(self.snapshot_rows@.take(i + 1), printing_id) =~= pre);
                }
            }
            i = i + 1;
        }
        proof {
            assert(self.snapshot_rows@.take(n as int) =~= self.snapshot_rows@);
            lemma_sort_desc_sorted(snaps_of(self.snapshot_rows@, printing_id));
        }
        r
    }
}

// ---------------------------------------------------------------------------
// Full-text search over the in-memory backend: the engine's match
// semantics here are a plain case-sensitive substring test over face
// names and prose segments.
// ---------------------------------------------------------------------------

/// A face matches full-text search when its name, or any prose or
/// reminder segment of its rules text, holds the query.
pub open spec fn fts_face_matches(face: CardFace, q: Seq<u8>) -> bool {
    ||| crate::strutil::bytes_contains(vstd::utf8::encode_utf8(face.name@), q)
    ||| exists|k: int|
        0 <= k < face.oracle_text.0@.len() && (match #[trigger] face.oracle_text.0@[k] {
            crate::oracle::OracleTextSegment::Text(t) => crate::strutil::bytes_contains(
                vstd::utf8::encode_utf8(t@),
                q,
            ),
            crate::oracle::OracleTextSegment::Reminder(t) => crate::strutil::bytes_contains(
                vstd::utf8::encode_utf8(t@),
                q,
            ),
            _ => false,
        })
}

pub open spec fn fts_matches(faces: Seq<FaceRow>, oid: Uuid, q: Seq<u8>) -> bool {
    exists|k: int|
        0 <= k < faces.len() && (#[trigger] faces[k]).oracle_id == oid && fts_face_matches(
            faces[k].face,
            q,
        )
}

/// The identifiers of the oracle rows with a full-text match, in table
/// order.
pub open spec fn fts_match_ids(s: Seq<OracleRow>, faces: Seq<FaceRow>, q: Seq<u8>) -> Seq<Uuid>
    decreases s.len(),
{
    if s.len() == 0 {
        Seq::empty()
    } else {
        fts_match_ids(s.drop_last(), faces, q) + (if fts_matches(faces, s.last().oracle_id, q) {
            seq![s.last().oracle_id]
        } else {
            Seq::empty()
        })
    }
}

proof fn lemma_fts_match_ids_prefix(s: Seq<OracleRow>, faces: Seq<FaceRow>, q: Seq<u8>, i: int)
    requires
        0 <= i <= s.len(),
    ensures
        fts_match_ids(s.take(i), faces, q).len() <= fts_match_ids(s, faces, q).len(),
        forall|j: int|
            0 <= j < fts_match_ids(s.take(i), faces, q).len() ==> #[trigger] fts_match_ids(
                s,
                faces,
                q,
            )[j] == fts_match_ids(s.take(i), faces, q)[j],
    decreases s.len() - i,
{
    if i == s.len() {
        assert(s.take(i) =~= s);
    } else {
        assert(s.take(i + 1).drop_last() =~= s.take(i));
        assert(s.take(i + 1).last() == s[i]);
        lemma_fts_match_ids_prefix(s, faces, q, i + 1);
    }
}

impl Storage {
    fn face_fts_matches(face: &CardFace, q: &str) -> (r: bool)
        ensures
            r == fts_face_matches(*face, q.spec_bytes()),
    {
        if crate::strutil::str_contains(face.name.as_str(), q) {
            return true;
        }
        let n = face.oracle_text.0.len();
        let mut k: usize = 0;
        while k < n
            invariant
                n == face.oracle_text.0@.len(),
                0 <= k <= n,
                forall|a: int|
                    0 <= a < k ==> !(match #[trigger] face.oracle_text.0@[a] {
                        crate::oracle::OracleTextSegment::Text(t) => crate::strutil::bytes_contains(
                            vstd::utf8::encode_utf8(t@),
                            q.spec_bytes(),
                        ),
                        crate::oracle::OracleTextSegment::Reminder(
                            t,
                        ) => crate::strutil::bytes_contains(
                            vstd::utf8::encode_utf8(t@),
                            q.spec_bytes(),
                        ),
                        _ => false,
                    }),
            decreases n - k,
        {
            match &face.oracle_text.0[k] {
                crate::oracle::OracleTextSegment::Text(t) => {
                    if crate::strutil::str_contains(t.as_str(), q) {
                        return true;
                    }
                },
                crate::oracle::OracleTextSegment::Reminder(t) => {
                    if crate::strutil::str_contains(t.as_str(), q) {
                        return true;
                    }
                },
                _ => {},
            }
            k = k + 1;
        }
        false
    }

    fn any_face_fts_matches(&self, oid: Uuid, q: &str) -> (r: bool)
        requires
            self.wf(),
        ensures
            r == fts_matches(self.face_rows@, oid, q.spec_bytes()),
    {
        let n = self.face_rows.len();
        let mut i: usize = 0;
        while i < n
            invariant
                self.wf(),
                n == self.face_rows@.len(),
                0 <= i <= n,
                forall|k: int|
                    0 <= k < i ==> !((#[trigger] self.face_rows@[k]).oracle_id == oid
                        && fts_face_matches(self.face_rows@[k].face, q.spec_bytes())),
            decreases n - i,
        {
            let fr = &self.face_rows[i];
            if fr.oracle_id == oid {
                if Storage::face_fts_matches(&fr.face, q) {
                    return true;
                }
            }
            i = i + 1;
        }
        false
    }

    /// At most `limit` oracle cards with a full-text match in a face name
    /// or prose segment, in table order, each assembled with its faces.
    pub fn search_fts(&self, q: &str, limit: u32) -> (r: Vec<OracleCard>)
        requires
            self.wf(),
        ensures
            ({
                let ids = fts_match_ids(self.oracle_rows@, self.face_rows@, q.spec_bytes());
                &&& r@.len() == (if ids.len() <= limit as int {
                    ids.len() as int
                } else {
                    limit as int
                })
                &&& forall|j: int|
                    0 <= j < r@.len() ==> card_on_file_as(*self, ids[j], #[trigger] r@[j])
            }),
    {
        let ghost ids = fts_match_ids(self.oracle_rows@, self.face_rows@, q.spec_bytes());
        let mut r: Vec<OracleCard> = Vec::new();
        let n = self.oracle_rows.len();
        let mut i: usize = 0;
        while i < n && r.len() < limit as usize
            invariant
                self.wf(),
                ids == fts_match_ids(self.oracle_rows@, self.face_rows@, q.spec_bytes()),
                n == self.oracle_rows@.len(),
                0 <= i <= n,
                r@.len() == fts_match_ids(
                    self.oracle_rows@.take(i as int),
                    self.face_rows@,
                    q.spec_bytes(),
                ).len(),
                r@.len() <= limit as int,
                forall|j: int|
                    0 <= j < r@.len() ==> card_on_file_as(
                        *self,
                        fts_match_ids(
                            self.oracle_rows@.take(i as int),
                            self.face_rows@,
                            q.spec_bytes(),
                        )[j],
                        #[trigger] r@[j],
                    ),
            decreases n - i,
        {
            proof {
                assert(self.oracle_rows@.take(i + 1).drop_last() =~= self.oracle_rows@.take(
                    i as int,
                ));
                assert(self.oracle_rows@.take(i + 1).last() == self.oracle_rows@[i as int]);
            }
            let row = &self.oracle_rows[i];
            if self.any_face_fts_matches(row.oracle_id, q) {
                match self.get_oracle(row.oracle_id) {
                    Some(c) => {
                        r.push(c);
                    },
                    None => {
                        proof {
                            assert forall|k: int| 0 <= k < i implies !(oracle_key(row.oracle_id))(
                                #[trigger] self.oracle_rows@[k],
                            ) by {
                                assert(self.oracle_rows@[k].oracle_id != self.oracle_rows@[
                                    i as int].oracle_id);
                            }
                            lemma_seq_find_at(self.oracle_rows@, oracle_key(row.oracle_id), i as int);
                            assert(false);
                        }
                    },
                }
            }
            i = i + 1;
        }
        proof {
            lemma_fts_match_ids_prefix(
                self.oracle_rows@,
                self.face_rows@,
                q.spec_bytes(),
                i as int,
            );
            if i == n {
                assert(self.oracle_rows@.take(n as int) =~= self.oracle_rows@);
            }
        }
        r
    }
}

} // verus!
