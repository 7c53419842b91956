use elbrus::collection::Condition;
use elbrus::color::{Color, ColorSet};
use elbrus::card::{CardLayout, Rarity};
use elbrus::decimal::DecimalValue;
use elbrus::ident::Uuid;
use elbrus::legality::{Format, Legalities, LegalityStatus};
use elbrus::keyword::Keyword;
use elbrus::mana::ManaCost;
use elbrus::oracle::{OracleText, OracleTextSegment};
use elbrus::time::{parse_date, Date};
use elbrus::types::{CardType, Subtype, TypeLine};

#[test]
fn color_set_basics() {
    let mut set = ColorSet::empty();
    assert!(set.is_colorless());
    assert!(!set.is_multicolor());
    set.insert(Color::W);
    assert!(!set.is_colorless());
    assert!(!set.is_multicolor());
    assert!(set.contains(Color::W));
    assert!(!set.contains(Color::U));
    set.insert(Color::G);
    assert!(set.is_multicolor());
    assert_eq!(set.bits(), 0b10001);
}

#[test]
fn color_set_truncates_stray_bits() {
    let set = ColorSet::from_bits_truncate(0xff);
    assert_eq!(set.bits(), 0x1f);
}

#[test]
fn legality_exact_match_only() {
    let legalities = Legalities(vec![
        (Format(String::from("standard")), LegalityStatus::Legal),
        (Format(String::from("modern")), LegalityStatus::Banned),
        (Format(String::from("vintage")), LegalityStatus::Restricted),
    ]);
    assert!(legalities.is_legal_in(&Format(String::from("standard"))));
    assert!(!legalities.is_legal_in(&Format(String::from("modern"))));
    assert!(!legalities.is_legal_in(&Format(String::from("vintage"))));
    assert!(!legalities.is_legal_in(&Format(String::from("commander"))));
}

#[test]
fn legality_later_entry_wins() {
    let legalities = Legalities(vec![
        (Format(String::from("pauper")), LegalityStatus::Legal),
        (Format(String::from("pauper")), LegalityStatus::Banned),
    ]);
    assert!(!legalities.is_legal_in(&Format(String::from("pauper"))));
}

#[test]
fn type_line_queries() {
    let line = TypeLine {
        supertypes: Vec::new(),
        card_types: vec![CardType::Creature],
        subtypes: vec![Subtype(String::from("Elf"))],
    };
    assert!(line.is_creature());
    assert!(line.is_permanent());
    let sorcery = TypeLine {
        supertypes: Vec::new(),
        card_types: vec![CardType::Sorcery],
        subtypes: Vec::new(),
    };
    assert!(!sorcery.is_creature());
    assert!(!sorcery.is_permanent());
    let battle = TypeLine {
        supertypes: Vec::new(),
        card_types: vec![CardType::Battle],
        subtypes: Vec::new(),
    };
    assert!(battle.is_permanent());
}

#[test]
fn type_line_parse_always_fails() {
    assert!(TypeLine::parse("Legendary Creature - Elf").is_err());
    assert!(ManaCost::parse("{1}{W}").is_err());
}

#[test]
fn oracle_text_keywords_in_order() {
    let text = OracleText(vec![
        OracleTextSegment::Keyword { keyword: Keyword::Flying, parameter: None },
        OracleTextSegment::Text(String::from("Whenever this attacks, draw a card.")),
        OracleTextSegment::Keyword {
            keyword: Keyword::Ward,
            parameter: Some(String::from("{2}")),
        },
    ]);
    let kws = text.keywords();
    assert_eq!(kws, vec![Keyword::Flying, Keyword::Ward]);
}

#[test]
fn uuid_parse_round_values() {
    let u = Uuid::parse_str("3397aa3d-bf73-4ca3-a806-059361603079").unwrap();
    assert_eq!(u.0, 0x3397aa3dbf734ca3a806059361603079u128);
    let upper = Uuid::parse_str("3397AA3D-BF73-4CA3-A806-059361603079").unwrap();
    assert_eq!(u, upper);
    assert!(Uuid::parse_str("3397aa3d-bf73-4ca3-a806-05936160307").is_none());
    assert!(Uuid::parse_str("3397aa3dxbf73-4ca3-a806-059361603079").is_none());
    assert!(Uuid::parse_str("").is_none());
}

#[test]
fn date_parse_and_validity() {
    assert_eq!(parse_date("2026-01-01"), Some(Date { year: 2026, month: 1, day: 1 }));
    assert_eq!(parse_date("2024-02-29"), Some(Date { year: 2024, month: 2, day: 29 }));
    assert_eq!(parse_date("2023-02-29"), None);
    assert_eq!(parse_date("1900-02-29"), None);
    assert_eq!(parse_date("2000-02-29"), Some(Date { year: 2000, month: 2, day: 29 }));
    assert_eq!(parse_date("2023-13-01"), None);
    assert_eq!(parse_date("2023-00-10"), None);
    assert_eq!(parse_date("2023-1-1"), None);
    assert_eq!(parse_date("garbage"), None);
    assert_eq!(Date::default(), Date { year: 1970, month: 1, day: 1 });
}

#[test]
fn decimal_parse_and_arithmetic() {
    let a = DecimalValue::from_str("1.50").unwrap();
    assert_eq!(a.mantissa, 150);
    assert_eq!(a.scale, 2);
    let b = DecimalValue::from_str("-3").unwrap();
    assert_eq!(b.mantissa, -3);
    assert_eq!(b.scale, 0);
    let c = DecimalValue::from_str("+0.125").unwrap();
    assert_eq!(c.mantissa, 125);
    assert_eq!(c.scale, 3);
    assert!(DecimalValue::from_str("").is_none());
    assert!(DecimalValue::from_str("1.").is_none());
    assert!(DecimalValue::from_str(".5").is_none());
    assert!(DecimalValue::from_str("1,5").is_none());

    let four = a.checked_mul_u32(4).unwrap();
    assert_eq!(four, DecimalValue::from_str("6.00").unwrap());
    let sum = four.checked_add(DecimalValue::from_str("6.00").unwrap()).unwrap();
    assert_eq!(sum, DecimalValue::from_str("12.00").unwrap());
    let mixed = DecimalValue::from_str("1.5").unwrap().checked_add(
        DecimalValue::from_str("0.25").unwrap(),
    ).unwrap();
    assert_eq!(mixed, DecimalValue::from_str("1.75").unwrap());
}

#[test]
fn tag_round_trips() {
    assert_eq!(Rarity::try_from_tag("mythic"), Some(Rarity::Mythic));
    assert_eq!(Rarity::try_from_tag("Mythic"), None);
    assert_eq!(Rarity::from_tag_or_common("unheard-of"), Rarity::Common);
    assert_eq!(Rarity::Mythic.as_tag(), "mythic");
    assert_eq!(Condition::try_from_tag("near_mint"), Some(Condition::NearMint));
    assert_eq!(Condition::try_from_tag("mint"), None);
    assert_eq!(Condition::ModeratelyPlayed.as_tag(), "moderately_played");
    assert_eq!(LegalityStatus::from_tag("legal"), LegalityStatus::Legal);
    assert_eq!(LegalityStatus::from_tag("banned"), LegalityStatus::Banned);
    assert_eq!(LegalityStatus::from_tag("restricted"), LegalityStatus::Restricted);
    assert_eq!(LegalityStatus::from_tag("not_legal"), LegalityStatus::NotLegal);
    assert_eq!(LegalityStatus::from_tag("suspended"), LegalityStatus::NotLegal);
    assert!(matches!(CardLayout::from_tag("saga"), CardLayout::Saga));
    match CardLayout::from_tag("some_new_layout") {
        CardLayout::Unknown(s) => assert_eq!(s, "some_new_layout"),
        other => panic!("expected the fallback, got {:?}", other),
    }
}
