use vstd::prelude::*;
use crate::card::{face_eq, oracle_card_eq, printing_eq, OracleCard, Printing};
use crate::collection::{entry_eq, entry_same_key, CollectionEntry, Condition};
use crate::ident::Uuid;
use crate::keyword::keyword_eq;
use crate::legality::{legalities_eq, legalities_map, lemma_legalities_eq_map};
use crate::mana::{mana_cost_eq, mana_symbol_eq};
use crate::oracle::{opt_string_eq, oracle_text_eq, segment_eq};
use crate::store::{
    face_count, find_entry_row, find_face_row, find_oracle_row, find_printing_row, row_card_eq,
    Storage,
};
use crate::types::{card_type_eq, subtype_eq, supertype_eq, type_line_eq};

verus! {

// ---------------------------------------------------------------------------
// The field-for-field equality predicates are equivalences; the round-trip
// laws chain written and read values through the stored row.
// ---------------------------------------------------------------------------

proof fn lemma_mana_cost_eq_trans(a: crate::mana::ManaCost, b: crate::mana::ManaCost, c: crate::mana::ManaCost)
    requires
        mana_cost_eq(a, b),
        mana_cost_eq(b, c),
    ensures
        mana_cost_eq(a, c),
{
    assert forall|i: int| 0 <= i < a.0@.len() implies mana_symbol_eq(#[trigger] a.0@[i], c.0@[i]) by {
        assert(mana_symbol_eq(a.0@[i], b.0@[i]));
        assert(mana_symbol_eq(b.0@[i], c.0@[i]));
    }
}

proof fn lemma_type_line_eq_trans(a: crate::types::TypeLine, b: crate::types::TypeLine, c: crate::types::TypeLine)
    requires
        type_line_eq(a, b),
        type_line_eq(b, c),
    ensures
        type_line_eq(a, c),
{
    assert forall|i: int| 0 <= i < a.supertypes@.len() implies supertype_eq(
        #[trigger] a.supertypes@[i],
        c.supertypes@[i],
    ) by {
        assert(supertype_eq(a.supertypes@[i], b.supertypes@[i]));
        assert(supertype_eq(b.supertypes@[i], c.supertypes@[i]));
    }
    assert forall|i: int| 0 <= i < a.card_types@.len() implies card_type_eq(
        #[trigger] a.card_types@[i],
        c.card_types@[i],
    ) by {
        assert(card_type_eq(a.card_types@[i], b.card_types@[i]));
        assert(card_type_eq(b.card_types@[i], c.card_types@[i]));
    }
    assert forall|i: int| 0 <= i < a.subtypes@.len() implies subtype_eq(
        #[trigger] a.subtypes@[i],
        c.subtypes@[i],
    ) by {
        assert(subtype_eq(a.subtypes@[i], b.subtypes@[i]));
        assert(subtype_eq(b.subtypes@[i], c.subtypes@[i]));
    }
}

proof fn lemma_oracle_text_eq_trans(a: crate::oracle::OracleText, b: crate::oracle::OracleText, c: crate::oracle::OracleText)
    requires
        oracle_text_eq(a, b),
        oracle_text_eq(b, c),
    ensures
        oracle_text_eq(a, c),
{
    assert forall|i: int| 0 <= i < a.0@.len() implies segment_eq(#[trigger] a.0@[i], c.0@[i]) by {
        assert(segment_eq(a.0@[i], b.0@[i]));
        assert(segment_eq(b.0@[i], c.0@[i]));
        lemma_segment_eq_trans(a.0@[i], b.0@[i], c.0@[i]);
    }
}

proof fn lemma_segment_eq_trans(a: crate::oracle::OracleTextSegment, b: crate::oracle::OracleTextSegment, c: crate::oracle::OracleTextSegment)
    requires
        segment_eq(a, b),
        segment_eq(b, c),
    ensures
        segment_eq(a, c),
{
    match (a, b, c) {
        (
            crate::oracle::OracleTextSegment::ManaCost(x),
            crate::oracle::OracleTextSegment::ManaCost(y),
            crate::oracle::OracleTextSegment::ManaCost(z),
        ) => {
            lemma_mana_cost_eq_trans(x, y, z);
        },
        _ => {},
    }
}

proof fn lemma_face_eq_trans(a: crate::card::CardFace, b: crate::card::CardFace, c: crate::card::CardFace)
    requires
        face_eq(a, b),
        face_eq(b, c),
    ensures
        face_eq(a, c),
{
    match (a.mana_cost, b.mana_cost, c.mana_cost) {
        (Option::Some(x), Option::Some(y), Option::Some(z)) => {
            lemma_mana_cost_eq_trans(x, y, z);
        },
        _ => {},
    }
    lemma_type_line_eq_trans(a.type_line, b.type_line, c.type_line);
    lemma_oracle_text_eq_trans(a.oracle_text, b.oracle_text, c.oracle_text);
}

/// The two cards agree wherever one agrees with the shared row and face
/// rows; used to chain a written card to a read one.
proof fn lemma_row_card_eq_join(row: crate::store::OracleRow, a: OracleCard, b: OracleCard)
    requires
        row_card_eq(row, a),
        row_card_eq(row, b),
        a.faces@.len() == b.faces@.len(),
        forall|i: int| 0 <= i < a.faces@.len() ==> face_eq(#[trigger] a.faces@[i], b.faces@[i]),
    ensures
        oracle_card_eq(a, b),
{
    assert forall|i: int| 0 <= i < a.keywords@.len() implies keyword_eq(
        #[trigger] a.keywords@[i],
        b.keywords@[i],
    ) by {
        assert(keyword_eq(row.keywords@[i], a.keywords@[i]));
        assert(keyword_eq(row.keywords@[i], b.keywords@[i]));
    }
    assert forall|i: int| 0 <= i < a.legalities.0@.len() implies crate::legality::format_eq(
        #[trigger] a.legalities.0@[i].0,
        b.legalities.0@[i].0,
    ) && a.legalities.0@[i].1 == b.legalities.0@[i].1 by {
        assert(legalities_eq(row.legalities, a.legalities));
        assert(legalities_eq(row.legalities, b.legalities));
        assert(row.legalities.0@.len() == a.legalities.0@.len());
        assert(crate::legality::format_eq(row.legalities.0@[i].0, a.legalities.0@[i].0)
            && row.legalities.0@[i].1 == a.legalities.0@[i].1);
        assert(crate::legality::format_eq(row.legalities.0@[i].0, b.legalities.0@[i].0)
            && row.legalities.0@[i].1 == b.legalities.0@[i].1);
    }
}

// ---------------------------------------------------------------------------
// Round-trip persistence laws.
// ---------------------------------------------------------------------------

/// Writing a printing and reading it back by its identifier yields the
/// same printing in every field. The premises are exactly what
/// `upsert_printing` ensures about the written state and what `get_by_id`
/// ensures about its answer in that state.
pub proof fn lemma_printing_round_trip(post: Storage, p: Printing, got: Printing)
    requires
        find_printing_row(post.printing_rows@, p.id) matches Some(q) && printing_eq(q, p),
        find_printing_row(post.printing_rows@, p.id) matches Some(q2) && printing_eq(got, q2),
    ensures
        printing_eq(got, p),
{
}

/// Writing an oracle card and reading it back yields the same card:
/// identifier, layout, color identity, keywords, legalities, popularity
/// rank, reserved flag, and the face list in full, in order. The one
/// premise beyond the two calls' contracts is that no wider face list for
/// the same identifier was on file before the write; orphaned higher
/// face rows from such a write would also be read back.
pub proof fn lemma_oracle_round_trip(pre: Storage, post: Storage, c: OracleCard, got: OracleCard)
    requires
        c.faces@.len() >= face_count(pre.face_rows@, c.oracle_id),
        // what upsert_oracle ensures of the written state
        find_oracle_row(post.oracle_rows@, c.oracle_id) matches Some(row) && row_card_eq(row, c),
        forall|i: int|
            0 <= i < c.faces@.len() ==> (#[trigger] find_face_row(
                post.face_rows@,
                c.oracle_id,
                i,
            ) matches Some(fr) && face_eq(fr.face, c.faces@[i])),
        face_count(post.face_rows@, c.oracle_id) == (if c.faces@.len() >= face_count(
            pre.face_rows@,
            c.oracle_id,
        ) {
            c.faces@.len() as int
        } else {
            face_count(pre.face_rows@, c.oracle_id)
        }),
        // what get_oracle ensures of its answer
        find_oracle_row(post.oracle_rows@, c.oracle_id) matches Some(row2) && row_card_eq(
            row2,
            got,
        ),
        got.oracle_id == c.oracle_id,
        got.faces@.len() == face_count(post.face_rows@, c.oracle_id),
        forall|i: int|
            0 <= i < got.faces@.len() ==> (#[trigger] find_face_row(
                post.face_rows@,
                c.oracle_id,
                i,
            ) matches Some(fr) && face_eq(got.faces@[i], fr.face)),
    ensures
        oracle_card_eq(got, c),
{
    let row = find_oracle_row(post.oracle_rows@, c.oracle_id).unwrap();
    assert(got.faces@.len() == c.faces@.len());
    assert forall|i: int| 0 <= i < got.faces@.len() implies face_eq(
        #[trigger] got.faces@[i],
        c.faces@[i],
    ) by {
        let fr = find_face_row(post.face_rows@, c.oracle_id, i).unwrap();
        lemma_face_eq_trans(got.faces@[i], fr.face, c.faces@[i]);
    }
    lemma_row_card_eq_join(row, got, c);
    assert(oracle_card_eq(got, c));
}

/// A card read back equal to the one written answers every legality
/// question as the written one did: equal legality lists stand for the
/// same format mapping, on which `is_legal_in` is specified.
pub proof fn lemma_round_trip_preserves_legality(c: OracleCard, got: OracleCard)
    requires
        oracle_card_eq(got, c),
    ensures
        legalities_map(got.legalities.0@) == legalities_map(c.legalities.0@),
{
    lemma_legalities_eq_map(got.legalities, c.legalities);
}

/// Writing the same oracle identifier twice, the second time with a face
/// list at least as long, leaves the store reflecting only the second
/// write: reading the identifier yields the second card exactly, and the
/// store still holds one row per identifier and per face index.
pub proof fn lemma_oracle_upsert_latest_wins(
    pre: Storage,
    mid: Storage,
    post: Storage,
    c1: OracleCard,
    c2: OracleCard,
    got: OracleCard,
)
    requires
        c1.oracle_id == c2.oracle_id,
        face_count(pre.face_rows@, c1.oracle_id) <= c1.faces@.len() <= c2.faces@.len(),
        post.wf(),
        // what the first write ensures of the middle state
        face_count(mid.face_rows@, c1.oracle_id) == (if c1.faces@.len() >= face_count(
            pre.face_rows@,
            c1.oracle_id,
        ) {
            c1.faces@.len() as int
        } else {
            face_count(pre.face_rows@, c1.oracle_id)
        }),
        // what the second write ensures of the final state
        find_oracle_row(post.oracle_rows@, c2.oracle_id) matches Some(row) && row_card_eq(row, c2),
        forall|i: int|
            0 <= i < c2.faces@.len() ==> (#[trigger] find_face_row(
                post.face_rows@,
                c2.oracle_id,
                i,
            ) matches Some(fr) && face_eq(fr.face, c2.faces@[i])),
        face_count(post.face_rows@, c2.oracle_id) == (if c2.faces@.len() >= face_count(
            mid.face_rows@,
            c2.oracle_id,
        ) {
            c2.faces@.len() as int
        } else {
            face_count(mid.face_rows@, c2.oracle_id)
        }),
        // what the read ensures of its answer
        find_oracle_row(post.oracle_rows@, c2.oracle_id) matches Some(row2) && row_card_eq(
            row2,
            got,
        ),
        got.oracle_id == c2.oracle_id,
        got.faces@.len() == face_count(post.face_rows@, c2.oracle_id),
        forall|i: int|
            0 <= i < got.faces@.len() ==> (#[trigger] find_face_row(
                post.face_rows@,
                c2.oracle_id,
                i,
            ) matches Some(fr) && face_eq(got.faces@[i], fr.face)),
    ensures
        oracle_card_eq(got, c2),
{
    lemma_oracle_round_trip(mid, post, c2, got);
}

/// Two entry writes on the same (collection, printing, condition, foil)
/// key leave one entry row for that key, carrying only the second call's
/// quantity and notes.
pub proof fn lemma_upsert_card_merge(post: Storage, e1: CollectionEntry, e2: CollectionEntry)
    requires
        entry_same_key(e1, e2),
        post.wf(),
        // what the second write ensures of the final state
        find_entry_row(
            post.entry_rows@,
            e2.collection_id,
            e2.printing_id,
            e2.condition,
            e2.foil,
        ) matches Some(e) && entry_eq(e, e2),
    ensures
        find_entry_row(
            post.entry_rows@,
            e1.collection_id,
            e1.printing_id,
            e1.condition,
            e1.foil,
        ) matches Some(e) && e.quantity == e2.quantity && opt_string_eq(e.notes, e2.notes),
{
}

/// Removing one (collection, printing, condition, foil) key removes only
/// that row: the same printing at any other condition or foil state is
/// still on file exactly as before.
pub proof fn lemma_remove_card_selective(
    pre: Storage,
    post: Storage,
    cid: Uuid,
    pid: Uuid,
    cond: Condition,
    foil: bool,
    cond2: Condition,
    foil2: bool,
)
    requires
        !(cond2 == cond && foil2 == foil),
        // what remove_card ensures of the final state
        find_entry_row(post.entry_rows@, cid, pid, cond, foil) is None,
        forall|c: Uuid, p: Uuid, cn: Condition, f: bool|
            !(c == cid && p == pid && cn == cond && f == foil) ==> #[trigger] find_entry_row(
                post.entry_rows@,
                c,
                p,
                cn,
                f,
            ) == find_entry_row(pre.entry_rows@, c, p, cn, f),
    ensures
        find_entry_row(post.entry_rows@, cid, pid, cond, foil) is None,
        find_entry_row(post.entry_rows@, cid, pid, cond2, foil2) == find_entry_row(
            pre.entry_rows@,
            cid,
            pid,
            cond2,
            foil2,
        ),
{
    assert(find_entry_row(post.entry_rows@, cid, pid, cond2, foil2) == find_entry_row(
        pre.entry_rows@,
        cid,
        pid,
        cond2,
        foil2,
    ));
}

} // verus!
