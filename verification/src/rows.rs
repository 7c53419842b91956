use vstd::prelude::*;
use vstd::string::{StrSliceExecFns, StringExecFns, StringSliceAdditionalSpecFns};
use vstd::utf8::encode_utf8;
use crate::card::{
    spec_layout_from_tag, spec_rarity_from_tag, CardFace, CardLayout, ImageUris, OracleCard,
    PriceSnapshot, Printing, Rarity,
};
use crate::color::ColorSet;
use crate::decimal::{spec_parse_decimal, DecimalValue};
use crate::error::DbError;
use crate::ident::{spec_uuid_val, uuid_bytes_wf, Uuid};
use crate::keyword::Keyword;
use crate::legality::Legalities;
use crate::mana::ManaCost;
use crate::oracle::OracleText;
use crate::store::price_snapshot_wf;
use crate::time::{spec_parse_date, Timestamp};
use crate::types::TypeLine;

verus! {

// Reassembling domain values from stored column values. The storage
// engine hands back plain columns; the serialized-structure columns are
// decoded before they reach these functions, which do the parsing and
// validation the stored text needs: identifiers, tags, dates, bit values
// and price texts.

/// The five color bits a stored integer column stands for: an
/// out-of-byte-range value reads as no colors, and only the five color
/// bits of an in-range value are kept.
pub open spec fn spec_stored_bits(v: i64) -> u8 {
    if 0 <= v <= 255 {
        (v as u8) & 0x1f
    } else {
        0
    }
}

fn stored_bits(v: i64) -> (r: ColorSet)
    ensures
        r.bits == spec_stored_bits(v),
        r.wf(),
{
    if v >= 0 && v <= 255 {
        ColorSet::from_bits_truncate(v as u8)
    } else {
        ColorSet::empty()
    }
}

/// Reassembles an oracle-card row; the face list is left empty, faces
/// come from their own rows. Fails exactly when the stored identifier is
/// not a well-formed hyphenated identifier; an unrecognized layout tag is
/// kept as text, and an out-of-range popularity rank reads as absent.
pub fn parse_oracle_card(
    oracle_id: &str,
    layout: &str,
    color_identity: i64,
    keywords: Vec<Keyword>,
    legalities: Legalities,
    edh_rank: Option<i64>,
    reserved: bool,
) -> (r: Result<OracleCard, DbError>)
    ensures
        match r {
            Ok(c) => {
                &&& uuid_bytes_wf(oracle_id.spec_bytes())
                &&& c.oracle_id.0 == spec_uuid_val(oracle_id.spec_bytes())
                &&& (match spec_layout_from_tag(layout@) {
                    Some(l) => c.layout == l,
                    None => c.layout matches CardLayout::Unknown(s) && s@ == layout@,
                })
                &&& c.color_identity.bits == spec_stored_bits(color_identity)
                &&& c.keywords == keywords
                &&& c.legalities == legalities
                &&& c.edh_rank == (match edh_rank {
                    Some(n) => if 0 <= n <= 0xffffffff {
                        Some(n as u32)
                    } else {
                        None::<u32>
                    },
                    None => None::<u32>,
                })
                &&& c.reserved == reserved
                &&& c.faces@.len() == 0
            },
            Err(e) => !uuid_bytes_wf(oracle_id.spec_bytes()) && e matches DbError::Unknown(_),
        },
{
    let oid = match Uuid::parse_str(oracle_id) {
        Some(u) => u,
        None => {
            return Err(DbError::Unknown(String::from_str("malformed oracle identifier")));
        },
    };
    Ok(
        OracleCard {
            oracle_id: oid,
            layout: CardLayout::from_tag(layout),
            faces: Vec::new(),
            color_identity: stored_bits(color_identity),
            keywords,
            legalities,
            edh_rank: match edh_rank {
                Some(n) => if n >= 0 && n <= 0xffffffff {
                    Some(n as u32)
                } else {
                    None
                },
                None => None,
            },
            reserved,
        },
    )
}

/// Reassembles one face row from its decoded columns; only the stored
/// color bits need reading.
pub fn parse_card_face(
    name: String,
    mana_cost: Option<ManaCost>,
    type_line: TypeLine,
    oracle_text: OracleText,
    colors: i64,
    power: Option<String>,
    toughness: Option<String>,
    loyalty: Option<String>,
    defense: Option<String>,
    flavor_text: Option<String>,
) -> (r: CardFace)
    ensures
        r.name == name,
        r.mana_cost == mana_cost,
        r.type_line == type_line,
        r.oracle_text == oracle_text,
        r.colors.bits == spec_stored_bits(colors),
        r.power == power,
        r.toughness == toughness,
        r.loyalty == loyalty,
        r.defense == defense,
        r.flavor_text == flavor_text,
{
    CardFace {
        name,
        mana_cost,
        type_line,
        oracle_text,
        colors: stored_bits(colors),
        power,
        toughness,
        loyalty,
        defense,
        flavor_text,
    }
}

/// Reassembles a printing row. Fails exactly when an identifier is
/// malformed, the rarity tag is unrecognized, or the stored release date
/// does not read as a calendar day: stored text that cannot be decoded
/// aborts the enclosing call, never yielding a best-effort value.
pub fn parse_printing(
    id: &str,
    oracle_id: &str,
    set_code: String,
    collector_number: String,
    rarity: &str,
    lang: String,
    released_at: &str,
    image_uris: Option<ImageUris>,
    promo: bool,
    digital: bool,
    full_art: bool,
    textless: bool,
    reprint: bool,
    prices: Option<PriceSnapshot>,
) -> (r: Result<Printing, DbError>)
    ensures
        match r {
            Ok(p) => {
                &&& uuid_bytes_wf(id.spec_bytes()) && p.id.0 == spec_uuid_val(id.spec_bytes())
                &&& uuid_bytes_wf(oracle_id.spec_bytes()) && p.oracle_id.0 == spec_uuid_val(
                    oracle_id.spec_bytes(),
                )
                &&& spec_rarity_from_tag(rarity@) == Some(p.rarity)
                &&& p.set_code == set_code
                &&& p.collector_number == collector_number
                &&& p.lang == lang
                &&& spec_parse_date(released_at.spec_bytes()) == Some(p.released_at)
                &&& p.image_uris == image_uris
                &&& p.promo == promo && p.digital == digital && p.full_art == full_art
                    && p.textless == textless && p.reprint == reprint
                &&& p.prices == prices
            },
            Err(e) => (!uuid_bytes_wf(id.spec_bytes()) || !uuid_bytes_wf(oracle_id.spec_bytes())
                || spec_rarity_from_tag(rarity@) is None || spec_parse_date(
                released_at.spec_bytes(),
            ) is None) && e matches DbError::Unknown(_),
        },
{
    let pid = match Uuid::parse_str(id) {
        Some(u) => u,
        None => {
            return Err(DbError::Unknown(String::from_str("malformed printing identifier")));
        },
    };
    let oid = match Uuid::parse_str(oracle_id) {
        Some(u) => u,
        None => {
            return Err(DbError::Unknown(String::from_str("malformed oracle identifier")));
        },
    };
    let rar = match Rarity::try_from_tag(rarity) {
        Some(x) => x,
        None => {
            return Err(DbError::Unknown(String::from_str("unrecognized rarity")));
        },
    };
    let released = match crate::time::parse_date(released_at) {
        Some(d) => d,
        None => {
            return Err(DbError::Unknown(String::from_str("malformed release date")));
        },
    };
    Ok(
        Printing {
            id: pid,
            oracle_id: oid,
            set_code,
            collector_number,
            rarity: rar,
            lang,
            released_at: released,
            image_uris,
            promo,
            digital,
            full_art,
            textless,
            reprint,
            prices,
        },
    )
}

/// Reassembles a price-snapshot row. The fetch time reaches this
/// function already read from its stored text, or not at all: an
/// unreadable timestamp is the one failure. An unreadable currency text
/// reads as no price, as it was written.
pub fn parse_price_snapshot(
    fetched_at_millis: Option<i64>,
    usd: Option<String>,
    usd_foil: Option<String>,
    eur: Option<String>,
    tix: Option<String>,
) -> (r: Result<PriceSnapshot, DbError>)
    ensures
        match r {
            Ok(ps) => {
                &&& fetched_at_millis matches Some(ms) && ps.fetched_at.millis == ms
                &&& ps.usd == spec_price_text(usd)
                &&& ps.usd_foil == spec_price_text(usd_foil)
                &&& ps.eur == spec_price_text(eur)
                &&& ps.tix == spec_price_text(tix)
                &&& price_snapshot_wf(ps)
            },
            Err(e) => fetched_at_millis is None && e matches DbError::Unknown(_),
        },
{
    let ms = match fetched_at_millis {
        Some(ms) => ms,
        None => {
            return Err(DbError::Unknown(String::from_str("malformed snapshot timestamp")));
        },
    };
    Ok(
        PriceSnapshot {
            usd: parse_price_text(usd),
            usd_foil: parse_price_text(usd_foil),
            eur: parse_price_text(eur),
            tix: parse_price_text(tix),
            fetched_at: Timestamp { millis: ms },
        },
    )
}

/// The amount a stored price text stands for, if it reads as a decimal.
pub open spec fn spec_price_text(t: Option<String>) -> Option<DecimalValue> {
    match t {
        Some(s) => spec_parse_decimal(encode_utf8(s@)),
        None => None,
    }
}

fn parse_price_text(t: Option<String>) -> (r: Option<DecimalValue>)
    ensures
        r == spec_price_text(t),
        r matches Some(d) ==> d.wf(),
{
    match t {
        Some(s) => DecimalValue::from_str(s.as_str()),
        None => None,
    }
}

} // verus!
