use elbrus::bulk::{extract_objects, make_batches, BulkIngestor};
use elbrus::error::DbError;
use elbrus::legality::Legalities;
use elbrus::oracle::OracleText;
use elbrus::rows::{parse_card_face, parse_oracle_card, parse_price_snapshot, parse_printing};
use elbrus::types::TypeLine;
use elbrus::card::{CardLayout, Rarity};
use elbrus::ident::Uuid;
use elbrus::legality::{Format, LegalityStatus};
use elbrus::mana::ManaSymbol;
use elbrus::models::ScryfallCard;
use elbrus::store::Storage;
use elbrus::time::{Date, Timestamp};

fn wire_card(id: Uuid, oracle_id: Option<Uuid>, name: &str, set: &str, collector: &str) -> ScryfallCard {
    ScryfallCard {
        id,
        oracle_id,
        name: String::from(name),
        layout: String::from("normal"),
        mana_cost: None,
        type_line: None,
        oracle_text: None,
        colors: None,
        color_identity: Vec::new(),
        keywords: Vec::new(),
        legalities: Vec::new(),
        set: String::from(set),
        collector_number: String::from(collector),
        rarity: String::from("common"),
        released_at: String::from("2013-06-07"),
        power: None,
        toughness: None,
        flavor_text: None,
        lang: String::from("ja"),
        edhrec_rank: None,
        reserved: false,
        promo: false,
        digital: false,
        full_art: false,
        textless: false,
        reprint: false,
        image_uris: None,
        prices: None,
        card_faces: None,
    }
}

#[test]
fn extraction_counts_and_contents() {
    let mut data = String::from("[");
    for i in 0..7 {
        if i > 0 {
            data.push(',');
        }
        data.push_str(&format!("{{\"id\": {}, \"nested\": {{\"a\": [1, 2]}}}}", i));
    }
    data.push(']');
    let objects = extract_objects(data.as_bytes());
    assert_eq!(objects.len(), 7);
    assert_eq!(
        String::from_utf8(objects[0].clone()).unwrap(),
        "{\"id\": 0, \"nested\": {\"a\": [1, 2]}}"
    );
}

#[test]
fn extraction_honors_strings_and_escapes() {
    // Braces and escaped quotes inside strings do not affect nesting.
    let data = "{\"name\": \"Open {brace\"} {\"note\": \"quote \\\" and } inside\"}";
    let objects = extract_objects(data.as_bytes());
    assert_eq!(objects.len(), 2);
    assert_eq!(
        String::from_utf8(objects[1].clone()).unwrap(),
        "{\"note\": \"quote \\\" and } inside\"}"
    );
    // An unterminated object is never emitted.
    let partial = extract_objects("{\"open\": 1".as_bytes());
    assert_eq!(partial.len(), 0);
}

#[test]
fn batch_sizes_follow_chunking() {
    let items: Vec<u32> = (0..23).collect();
    let batches = make_batches(items, 10);
    assert_eq!(batches.len(), 3);
    assert_eq!(batches[0].len(), 10);
    assert_eq!(batches[1].len(), 10);
    assert_eq!(batches[2].len(), 3);
    assert_eq!(batches[2], vec![20, 21, 22]);

    let exact: Vec<u32> = (0..20).collect();
    let batches = make_batches(exact, 10);
    assert_eq!(batches.len(), 2);
    assert_eq!(batches[1].len(), 10);

    let none: Vec<u32> = Vec::new();
    assert_eq!(make_batches(none, 10).len(), 0);
}

#[test]
fn conversion_maps_fields_and_falls_back() {
    let mut w = wire_card(Uuid(0x10), Some(Uuid(0x20)), "Griselbrand", "avr", "106");
    w.layout = String::from("transform");
    w.mana_cost = Some(String::from("{4}{B}{B}{B}{B}"));
    w.type_line = Some(String::from("Legendary Creature - Demon"));
    w.oracle_text = Some(String::from("Flying, lifelink"));
    w.color_identity = vec![String::from("B"), String::from("Q")];
    w.legalities = vec![
        (String::from("modern"), String::from("legal")),
        (String::from("commander"), String::from("banned")),
        (String::from("oldschool"), String::from("whatever")),
    ];
    w.rarity = String::from("mythic");
    w.released_at = String::from("2012-05-04");
    w.prices = Some(vec![
        (String::from("usd"), Some(String::from("9.41"))),
        (String::from("usd_foil"), None),
        (String::from("eur"), Some(String::from("not-a-number"))),
    ]);
    let (card, printing) = w.into_core();

    assert_eq!(card.oracle_id, Uuid(0x20));
    assert_eq!(card.layout, CardLayout::Transform);
    assert_eq!(card.faces.len(), 1);
    // The mana-cost parser rejects everything, so the raw text survives as
    // a single unrecognized symbol.
    let face = &card.faces[0];
    assert_eq!(face.name, "Griselbrand");
    match face.mana_cost.as_ref().unwrap().0.as_slice() {
        [ManaSymbol::Unknown(s)] => assert_eq!(s, "{4}{B}{B}{B}{B}"),
        other => panic!("expected one unknown symbol, got {:?}", other),
    }
    // The type-line parser rejects everything, so the raw text survives as
    // a single subtype.
    assert!(face.type_line.card_types.is_empty());
    assert_eq!(face.type_line.subtypes.len(), 1);
    assert_eq!(face.type_line.subtypes[0].0, "Legendary Creature - Demon");
    // Unknown color letters are ignored.
    assert_eq!(card.color_identity.bits(), 0b00100);
    assert!(card.keywords.is_empty());
    assert!(card.legalities.is_legal_in(&Format(String::from("modern"))));
    assert!(!card.legalities.is_legal_in(&Format(String::from("commander"))));
    assert!(!card.legalities.is_legal_in(&Format(String::from("oldschool"))));
    assert_eq!(card.legalities.0[2].1, LegalityStatus::NotLegal);
    assert_eq!(card.edh_rank, None);
    assert!(!card.reserved);

    assert_eq!(printing.id, Uuid(0x10));
    assert_eq!(printing.oracle_id, Uuid(0x20));
    assert_eq!(printing.set_code, "avr");
    assert_eq!(printing.collector_number, "106");
    assert_eq!(printing.rarity, Rarity::Mythic);
    assert_eq!(printing.lang, "en");
    assert_eq!(printing.released_at, Date { year: 2012, month: 5, day: 4 });
    let prices = printing.prices.unwrap();
    assert_eq!(prices.usd.unwrap().mantissa, 941);
    assert_eq!(prices.usd.unwrap().scale, 2);
    assert_eq!(prices.usd_foil, None);
    assert_eq!(prices.eur, None);
}

#[test]
fn conversion_generates_distinct_fresh_ids() {
    let a = wire_card(Uuid(1), None, "No Oracle", "unk", "1").into_core();
    let b = wire_card(Uuid(1), None, "No Oracle", "unk", "1").into_core();
    assert_ne!(a.0.oracle_id, b.0.oracle_id);
    assert_eq!(a.1.oracle_id, a.0.oracle_id);
}

#[test]
fn conversion_defaults_bad_date_and_empty_cost() {
    let mut w = wire_card(Uuid(5), Some(Uuid(6)), "Plain", "set", "2");
    w.released_at = String::from("not-a-date");
    w.mana_cost = Some(String::from(""));
    let (card, printing) = w.into_core();
    assert_eq!(printing.released_at, Date { year: 1970, month: 1, day: 1 });
    assert!(card.faces[0].mana_cost.is_none());
}

#[test]
fn test_ingest_sample() {
    let known_oracle = Uuid::parse_str("3397aa3d-bf73-4ca3-a806-059361603079").unwrap();
    let known_printing = Uuid::parse_str("67ba07ca-7be4-400e-a104-f7bbd527b6b4").unwrap();

    let mut pairs = Vec::new();
    for i in 0..50u32 {
        let (id, oracle_id, name, set, collector) = if i == 0 {
            (known_printing, known_oracle, String::from("Test of Faith"), String::from("mma"), String::from("33"))
        } else {
            (Uuid(1_000 + i as u128), Uuid(2_000 + i as u128), format!("Card {}", i), String::from("tst"), format!("{}", i))
        };
        let w = wire_card(id, Some(oracle_id), &name, &set, &collector);
        pairs.push(w.into_core());
    }
    let ingestor = BulkIngestor { chunk_size: 10 };
    let batches = make_batches(pairs, ingestor.chunk_size);
    assert_eq!(batches.len(), 5);

    let mut db = Storage::open_in_memory();
    let stats = ingestor.ingest_into_db(batches, &mut db).expect("ingestion cannot fail in memory");
    assert_eq!(stats.cards_processed, 50);
    assert_eq!(stats.cards_inserted, 50);
    assert_eq!(stats.cards_updated, 0);
    assert!(stats.duration_millis >= 0);

    let oracle_card = db.get_oracle(known_oracle).expect("oracle card missing");
    assert_eq!(oracle_card.oracle_id, known_oracle);
    assert_eq!(oracle_card.faces.len(), 1);
    assert_eq!(oracle_card.faces[0].name, "Test of Faith");

    let printing = db.get_by_id(known_printing).expect("printing missing");
    assert_eq!(printing.id, known_printing);
    assert_eq!(printing.set_code, "mma");
    assert_eq!(printing.collector_number, "33");
}

#[test]
fn repeated_ids_keep_the_last_write() {
    let known = Uuid(0xabc);
    let mut first = wire_card(Uuid(0x1), Some(known), "Early Name", "aaa", "1");
    first.rarity = String::from("common");
    let mut second = wire_card(Uuid(0x1), Some(known), "Later Name", "bbb", "2");
    second.rarity = String::from("mythic");
    let pairs = vec![first.into_core(), second.into_core()];
    let ingestor = BulkIngestor { chunk_size: 1 };
    let batches = make_batches(pairs, ingestor.chunk_size);

    let mut db = Storage::open_in_memory();
    let stats = ingestor.ingest_into_db(batches, &mut db).unwrap();
    assert_eq!(stats.cards_processed, 2);

    // A later record for the same identifiers overwrites the earlier one.
    let card = db.get_oracle(known).unwrap();
    assert_eq!(card.faces[0].name, "Later Name");
    let printing = db.get_by_id(Uuid(0x1)).unwrap();
    assert_eq!(printing.set_code, "bbb");
    assert_eq!(printing.rarity, Rarity::Mythic);
}

#[test]
fn default_chunk_size_is_five_hundred() {
    let ingestor = BulkIngestor::default();
    assert_eq!(ingestor.chunk_size, 500);
    let _ = Timestamp { millis: 0 };
}

#[test]
fn row_decoding_round_trip() {
    let card = parse_oracle_card(
        "3397aa3d-bf73-4ca3-a806-059361603079",
        "saga",
        0b00011,
        Vec::new(),
        Legalities(Vec::new()),
        Some(77),
        true,
    )
    .unwrap();
    assert_eq!(card.oracle_id, Uuid::parse_str("3397aa3d-bf73-4ca3-a806-059361603079").unwrap());
    assert_eq!(card.layout, CardLayout::Saga);
    assert_eq!(card.color_identity.bits(), 0b00011);
    assert_eq!(card.edh_rank, Some(77));
    assert!(card.reserved);
    assert!(card.faces.is_empty());
    assert!(matches!(
        parse_oracle_card("bogus", "saga", 0, Vec::new(), Legalities(Vec::new()), None, false),
        Err(DbError::Unknown(_))
    ));

    let face = parse_card_face(
        String::from("Side A"),
        None,
        TypeLine { supertypes: Vec::new(), card_types: Vec::new(), subtypes: Vec::new() },
        OracleText(Vec::new()),
        999,
        Some(String::from("1+*")),
        None,
        None,
        None,
        None,
    );
    assert_eq!(face.name, "Side A");
    assert_eq!(face.colors.bits(), 0);
    assert_eq!(face.power.as_deref(), Some("1+*"));

    let printing = parse_printing(
        "67ba07ca-7be4-400e-a104-f7bbd527b6b4",
        "3397aa3d-bf73-4ca3-a806-059361603079",
        String::from("mma"),
        String::from("33"),
        "rare",
        String::from("en"),
        "2011-06-17",
        None,
        false,
        false,
        false,
        false,
        false,
        None,
    )
    .unwrap();
    assert_eq!(printing.rarity, Rarity::Rare);
    assert_eq!(printing.released_at, Date { year: 2011, month: 6, day: 17 });
    assert!(matches!(
        parse_printing(
            "67ba07ca-7be4-400e-a104-f7bbd527b6b4",
            "3397aa3d-bf73-4ca3-a806-059361603079",
            String::from("mma"),
            String::from("33"),
            "ultra-rare",
            String::from("en"),
            "2011-06-17",
            None,
            false,
            false,
            false,
            false,
            false,
            None,
        ),
        Err(DbError::Unknown(_))
    ));
    // Stored text that cannot be decoded aborts the call: an unreadable
    // release date is an error, not a substitute.
    assert!(matches!(
        parse_printing(
            "67ba07ca-7be4-400e-a104-f7bbd527b6b4",
            "3397aa3d-bf73-4ca3-a806-059361603079",
            String::from("mma"),
            String::from("33"),
            "rare",
            String::from("en"),
            "not-a-date",
            None,
            false,
            false,
            false,
            false,
            false,
            None,
        ),
        Err(DbError::Unknown(_))
    ));

    let snap = parse_price_snapshot(
        Some(123_456),
        Some(String::from("1.50")),
        Some(String::from("gibberish")),
        None,
        None,
    )
    .unwrap();
    assert_eq!(snap.fetched_at.millis, 123_456);
    assert_eq!(snap.usd.unwrap().mantissa, 150);
    assert_eq!(snap.usd_foil, None);
    assert!(matches!(
        parse_price_snapshot(None, None, None, None, None),
        Err(DbError::Unknown(_))
    ));
}
