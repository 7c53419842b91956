use elbrus::card::{CardFace, CardLayout, OracleCard, PriceSnapshot, Printing, Rarity};
use elbrus::collection::{CollectionEntry, Condition};
use elbrus::color::ColorSet;
use elbrus::decimal::DecimalValue;
use elbrus::error::DbError;
use elbrus::ident::Uuid;
use elbrus::legality::{Format, Legalities, LegalityStatus};
use elbrus::oracle::{OracleText, OracleTextSegment};
use elbrus::store::Storage;
use elbrus::time::{Date, Timestamp};
use elbrus::types::TypeLine;

fn blank_face(name: &str) -> CardFace {
    CardFace {
        name: String::from(name),
        mana_cost: None,
        type_line: TypeLine { supertypes: Vec::new(), card_types: Vec::new(), subtypes: Vec::new() },
        oracle_text: OracleText(Vec::new()),
        colors: ColorSet::empty(),
        power: None,
        toughness: None,
        loyalty: None,
        defense: None,
        flavor_text: None,
    }
}

fn card_with_face(oracle_id: Uuid, name: &str) -> OracleCard {
    OracleCard {
        oracle_id,
        layout: CardLayout::Normal,
        faces: vec![blank_face(name)],
        color_identity: ColorSet::empty(),
        keywords: Vec::new(),
        legalities: Legalities(Vec::new()),
        edh_rank: Some(100),
        reserved: false,
    }
}

fn printing_in_set(id: Uuid, oracle_id: Uuid, set_code: &str, collector: &str) -> Printing {
    Printing {
        id,
        oracle_id,
        set_code: String::from(set_code),
        collector_number: String::from(collector),
        rarity: Rarity::Common,
        lang: String::from("en"),
        released_at: Date { year: 2026, month: 1, day: 1 },
        image_uris: None,
        promo: false,
        digital: false,
        full_art: false,
        textless: false,
        reprint: false,
        prices: None,
    }
}

#[test]
fn test_db_integration() {
    let mut db = Storage::open_in_memory();

    let oracle_id = Uuid(0x1111);
    let printing_id = Uuid(0x2222);

    let card = card_with_face(oracle_id, "Test Card");
    db.upsert_oracle(&card);

    let printing = printing_in_set(printing_id, oracle_id, "TST", "1");
    db.upsert_printing(&printing);

    // The card and the printing are retrievable as written.
    let retrieved = db.get_oracle(oracle_id).unwrap();
    assert_eq!(retrieved.oracle_id, oracle_id);
    assert_eq!(retrieved.faces[0].name, "Test Card");
    assert_eq!(retrieved.edh_rank, Some(100));

    let retrieved_print = db.get_by_id(printing_id).unwrap();
    assert_eq!(retrieved_print.id, printing_id);

    // Price snapshot queries.
    let snapshot = PriceSnapshot {
        usd: Some(DecimalValue::from_str("1.50").unwrap()),
        usd_foil: Some(DecimalValue::from_str("3.00").unwrap()),
        eur: None,
        tix: None,
        fetched_at: Timestamp { millis: 1_000 },
    };
    db.insert_snapshot(printing_id, &snapshot);

    let latest_price = db.get_latest_price(printing_id).unwrap();
    assert_eq!(latest_price.usd, snapshot.usd);

    let history = db.get_price_history(printing_id);
    assert_eq!(history.len(), 1);
    assert_eq!(history[0].usd_foil, snapshot.usd_foil);

    // Collection CRUD.
    let coll = db.create_collection("My Deck", Some("A test deck")).unwrap();
    assert_eq!(coll.name, "My Deck");

    let entry = CollectionEntry {
        collection_id: coll.id,
        printing_id,
        quantity: 4,
        condition: Condition::NearMint,
        foil: false,
        notes: Some(String::from("Playset")),
    };
    db.upsert_card(&entry);

    let fetched_coll = db.get_collection(coll.id).unwrap();
    assert_eq!(fetched_coll.entries.len(), 1);
    assert_eq!(fetched_coll.entries[0].quantity, 4);

    let coll_value = db.get_collection_value(coll.id).unwrap();
    assert_eq!(coll_value, DecimalValue::from_str("6.00").unwrap());

    let entry_foil = CollectionEntry {
        collection_id: coll.id,
        printing_id,
        quantity: 2,
        condition: Condition::NearMint,
        foil: true,
        notes: None,
    };
    db.upsert_card(&entry_foil);

    let coll_value2 = db.get_collection_value(coll.id).unwrap();
    assert_eq!(coll_value2, DecimalValue::from_str("12.00").unwrap());

    let collist = db.list_collections();
    assert_eq!(collist.len(), 1);

    // Removing the non-foil row leaves the foil row.
    db.remove_card(coll.id, printing_id, Condition::NearMint, false);
    let fetched_coll = db.get_collection(coll.id).unwrap();
    assert_eq!(fetched_coll.entries.len(), 1);
    assert!(fetched_coll.entries[0].foil);

    db.delete_collection(coll.id);
    let collist_after = db.list_collections();
    assert_eq!(collist_after.len(), 0);
}

#[test]
fn oracle_round_trip_all_fields() {
    let mut db = Storage::open_in_memory();
    let oracle_id = Uuid(7);
    let mut card = card_with_face(oracle_id, "Layered");
    card.layout = CardLayout::Split;
    card.faces.push(blank_face("Other Half"));
    card.color_identity = ColorSet::from_bits_truncate(0b00101);
    card.legalities = Legalities(vec![(
        Format(String::from("legacy")),
        LegalityStatus::Legal,
    )]);
    card.reserved = true;
    db.upsert_oracle(&card);
    let got = db.get_oracle(oracle_id).unwrap();
    assert_eq!(got, card);
}

#[test]
fn printing_round_trip_all_fields() {
    let mut db = Storage::open_in_memory();
    let mut p = printing_in_set(Uuid(9), Uuid(7), "abc", "127b");
    p.rarity = Rarity::Mythic;
    p.promo = true;
    p.reprint = true;
    p.prices = Some(PriceSnapshot {
        usd: Some(DecimalValue::from_str("0.07").unwrap()),
        usd_foil: None,
        eur: None,
        tix: None,
        fetched_at: Timestamp { millis: 42 },
    });
    db.upsert_printing(&p);
    let got = db.get_by_id(p.id).unwrap();
    assert_eq!(got, p);
    assert!(db.get_by_id(Uuid(0xdead)).is_none());
}

#[test]
fn idempotent_upsert_keeps_latest() {
    let mut db = Storage::open_in_memory();
    let oracle_id = Uuid(21);
    let mut card = card_with_face(oracle_id, "Twice Written");
    db.upsert_oracle(&card);
    card.reserved = true;
    card.edh_rank = None;
    db.upsert_oracle(&card);
    let got = db.get_oracle(oracle_id).unwrap();
    assert_eq!(got.faces.len(), 1);
    assert!(got.reserved);
    assert_eq!(got.edh_rank, None);
}

#[test]
fn upsert_card_merges_on_key() {
    let mut db = Storage::open_in_memory();
    let coll = db.create_collection("Binder", None).unwrap();
    let pid = Uuid(500);
    let first = CollectionEntry {
        collection_id: coll.id,
        printing_id: pid,
        quantity: 1,
        condition: Condition::Damaged,
        foil: false,
        notes: Some(String::from("worn")),
    };
    let second = CollectionEntry {
        quantity: 9,
        notes: None,
        ..first.clone()
    };
    db.upsert_card(&first);
    db.upsert_card(&second);
    let got = db.get_collection(coll.id).unwrap();
    assert_eq!(got.entries.len(), 1);
    assert_eq!(got.entries[0].quantity, 9);
    assert_eq!(got.entries[0].notes, None);
}

#[test]
fn valuation_skips_unpriced_printings() {
    let mut db = Storage::open_in_memory();
    let coll = db.create_collection("Box", None).unwrap();
    let priced = Uuid(1);
    let unpriced = Uuid(2);
    db.insert_snapshot(
        priced,
        &PriceSnapshot {
            usd: Some(DecimalValue::from_str("1.50").unwrap()),
            usd_foil: None,
            eur: None,
            tix: None,
            fetched_at: Timestamp { millis: 5 },
        },
    );
    for (pid, qty) in [(priced, 4u32), (unpriced, 11u32)] {
        db.upsert_card(&CollectionEntry {
            collection_id: coll.id,
            printing_id: pid,
            quantity: qty,
            condition: Condition::NearMint,
            foil: false,
            notes: None,
        });
    }
    assert_eq!(
        db.get_collection_value(coll.id).unwrap(),
        DecimalValue::from_str("6.00").unwrap()
    );
}

#[test]
fn foil_entry_falls_back_to_plain_price() {
    let mut db = Storage::open_in_memory();
    let coll = db.create_collection("Foils", None).unwrap();
    let pid = Uuid(77);
    db.insert_snapshot(
        pid,
        &PriceSnapshot {
            usd: Some(DecimalValue::from_str("2.00").unwrap()),
            usd_foil: None,
            eur: None,
            tix: None,
            fetched_at: Timestamp { millis: 1 },
        },
    );
    db.upsert_card(&CollectionEntry {
        collection_id: coll.id,
        printing_id: pid,
        quantity: 3,
        condition: Condition::NearMint,
        foil: true,
        notes: None,
    });
    assert_eq!(
        db.get_collection_value(coll.id).unwrap(),
        DecimalValue::from_str("6.00").unwrap()
    );
}

#[test]
fn valuation_overflow_is_an_error() {
    let mut db = Storage::open_in_memory();
    let coll = db.create_collection("Vault", None).unwrap();
    let pid = Uuid(8);
    // Eighteen integer digits is the widest readable price; four billion
    // copies of it overflow the decimal range.
    db.insert_snapshot(
        pid,
        &PriceSnapshot {
            usd: Some(DecimalValue::from_str("999999999999999999").unwrap()),
            usd_foil: None,
            eur: None,
            tix: None,
            fetched_at: Timestamp { millis: 1 },
        },
    );
    db.upsert_card(&CollectionEntry {
        collection_id: coll.id,
        printing_id: pid,
        quantity: u32::MAX,
        condition: Condition::NearMint,
        foil: false,
        notes: None,
    });
    assert!(matches!(db.get_collection_value(coll.id), Err(DbError::Unknown(_))));
}

#[test]
fn latest_price_and_history_order() {
    let mut db = Storage::open_in_memory();
    let pid = Uuid(3);
    for (millis, usd) in [(100i64, "1.00"), (300, "3.00"), (200, "2.00")] {
        db.insert_snapshot(
            pid,
            &PriceSnapshot {
                usd: Some(DecimalValue::from_str(usd).unwrap()),
                usd_foil: None,
                eur: None,
                tix: None,
                fetched_at: Timestamp { millis },
            },
        );
    }
    let latest = db.get_latest_price(pid).unwrap();
    assert_eq!(latest.fetched_at.millis, 300);
    assert_eq!(latest.usd, Some(DecimalValue::from_str("3.00").unwrap()));
    let history = db.get_price_history(pid);
    assert_eq!(history.len(), 3);
    assert_eq!(history[0].fetched_at.millis, 300);
    assert_eq!(history[1].fetched_at.millis, 200);
    assert_eq!(history[2].fetched_at.millis, 100);
    // Re-inserting at the same moment overwrites rather than duplicating.
    db.insert_snapshot(
        pid,
        &PriceSnapshot {
            usd: Some(DecimalValue::from_str("9.99").unwrap()),
            usd_foil: None,
            eur: None,
            tix: None,
            fetched_at: Timestamp { millis: 300 },
        },
    );
    let history = db.get_price_history(pid);
    assert_eq!(history.len(), 3);
    assert_eq!(history[0].usd, Some(DecimalValue::from_str("9.99").unwrap()));
}

#[test]
fn search_and_set_queries() {
    let mut db = Storage::open_in_memory();
    let a = Uuid(1);
    let b = Uuid(2);
    db.upsert_oracle(&card_with_face(a, "Lightning Helix"));
    db.upsert_oracle(&card_with_face(b, "Lightning Bolt"));
    db.upsert_printing(&printing_in_set(Uuid(10), a, "rav", "13"));
    db.upsert_printing(&printing_in_set(Uuid(11), b, "lea", "161"));
    db.upsert_printing(&printing_in_set(Uuid(12), b, "m11", "146"));

    let hits = db.search_name("Lightning", 10);
    assert_eq!(hits.len(), 2);
    let both = db.search_name("Lightning", 1);
    assert_eq!(both.len(), 1);
    assert_eq!(both[0].oracle_id, a);
    let bolt = db.search_name("Bolt", 10);
    assert_eq!(bolt.len(), 1);
    assert_eq!(bolt[0].oracle_id, b);
    assert_eq!(db.search_name("bolt", 10).len(), 0);

    let in_lea = db.cards_in_set("lea");
    assert_eq!(in_lea.len(), 1);
    assert_eq!(in_lea[0].id, Uuid(11));
    assert_eq!(db.cards_in_set("xyz").len(), 0);
}

#[test]
fn full_text_search_matches_names_and_text() {
    let mut db = Storage::open_in_memory();
    let a = Uuid(1);
    let b = Uuid(2);
    let mut flier = card_with_face(a, "Cloud Sprite");
    flier.faces[0].oracle_text = OracleText(vec![OracleTextSegment::Text(String::from(
        "Flying. This can block only creatures with flying.",
    ))]);
    db.upsert_oracle(&flier);
    db.upsert_oracle(&card_with_face(b, "Grizzly Bears"));
    let hits = db.search_fts("flying", 10);
    assert_eq!(hits.len(), 1);
    assert_eq!(hits[0].oracle_id, a);
    assert_eq!(db.search_fts("Bears", 10).len(), 1);
    assert_eq!(db.search_fts("island", 10).len(), 0);
}

#[test]
fn legal_in_format_query() {
    let mut db = Storage::open_in_memory();
    let a = Uuid(1);
    let b = Uuid(2);
    let mut legal_card = card_with_face(a, "Fair Spell");
    legal_card.legalities = Legalities(vec![(
        Format(String::from("modern")),
        LegalityStatus::Legal,
    )]);
    let mut banned_card = card_with_face(b, "Unfair Spell");
    banned_card.legalities = Legalities(vec![(
        Format(String::from("modern")),
        LegalityStatus::Banned,
    )]);
    db.upsert_oracle(&legal_card);
    db.upsert_oracle(&banned_card);
    let legal = db.legal_in_format(&Format(String::from("modern")));
    assert_eq!(legal.len(), 1);
    assert_eq!(legal[0].oracle_id, a);
    assert_eq!(legal[0].faces[0].name, "Fair Spell");
    assert_eq!(db.legal_in_format(&Format(String::from("standard"))).len(), 0);
}

#[test]
fn create_collection_rejects_taken_id() {
    let mut db = Storage::open_in_memory();
    let id = Uuid(404);
    let first = db.create_collection_with_id(id, "Original", None).unwrap();
    assert_eq!(first.id, id);
    assert!(matches!(
        db.create_collection_with_id(id, "Duplicate", None),
        Err(DbError::Sql(_))
    ));
    // The failed insert changed nothing.
    let listed = db.list_collections();
    assert_eq!(listed.len(), 1);
    assert_eq!(listed[0].name, "Original");
}

#[test]
fn create_collection_assigns_distinct_ids() {
    let mut db = Storage::open_in_memory();
    let c1 = db.create_collection("One", None).unwrap();
    let c2 = db.create_collection("Two", Some("second")).unwrap();
    assert_ne!(c1.id, c2.id);
    assert_eq!(c2.description.as_deref(), Some("second"));
    assert!(c1.entries.is_empty());
    let listed = db.list_collections();
    assert_eq!(listed.len(), 2);
    assert!(listed.iter().all(|c| c.entries.is_empty()));
}
