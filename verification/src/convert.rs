use vstd::prelude::*;
use vstd::string::StringExecFns;
use vstd::utf8::encode_utf8;
use crate::card::{
    spec_layout_from_tag, spec_rarity_from_tag, CardFace, CardLayout, ImageUris, OracleCard,
    PriceSnapshot, Printing, Rarity,
};
use crate::color::ColorSet;
use crate::decimal::{spec_parse_decimal, DecimalValue};
use crate::external::{fresh_uuid, now_timestamp};
use crate::ident::Uuid;
use crate::legality::{spec_status_from_tag, Format, Legalities, LegalityStatus};
use crate::mana::{ManaCost, ManaSymbol};
use crate::models::{ScryfallCard, ScryfallCardFace};
use crate::oracle::{OracleText, OracleTextSegment};
use crate::store::price_snapshot_wf;
use crate::strutil::str_eq;
use crate::time::{spec_parse_date, Date, Timestamp};
use crate::types::{Subtype, TypeLine};

verus! {

// ---------------------------------------------------------------------------
// Color letters.
// ---------------------------------------------------------------------------

/// The color bit a single letter code names; any other token is silently
/// ignored.
pub open spec fn spec_color_letter_mask(t: Seq<char>) -> u8 {
    if t == "W"@ {
        0x01
    } else if t == "U"@ {
        0x02
    } else if t == "B"@ {
        0x04
    } else if t == "R"@ {
        0x08
    } else if t == "G"@ {
        0x10
    } else {
        0x00
    }
}

/// The bit set the letter codes fold to, left to right.
pub open spec fn spec_parse_colors(cs: Seq<String>) -> u8
    decreases cs.len(),
{
    if cs.len() == 0 {
        0
    } else {
        spec_parse_colors(cs.drop_last()) | spec_color_letter_mask(cs.last()@)
    }
}

proof fn lemma_parse_colors_wf(cs: Seq<String>)
    ensures
        spec_parse_colors(cs) < 0x20,
    decreases cs.len(),
{
    if cs.len() == 0 {
    } else {
        lemma_parse_colors_wf(cs.drop_last());
        let b = spec_parse_colors(cs.drop_last());
        let m = spec_color_letter_mask(cs.last()@);
        assert(b < 0x20 && m < 0x20 ==> (b | m) < 0x20) by (bit_vector);
    }
}

/// Folds provider color letters (`W`, `U`, `B`, `R`, `G`) into a color
/// set; unrecognized tokens are ignored, not an error.
pub fn parse_colors(colors: &Vec<String>) -> (r: ColorSet)
    ensures
        r.bits == spec_parse_colors(colors@),
        r.wf(),
{
    let mut bits: u8 = 0;
    let mut i: usize = 0;
    proof {
        lemma_parse_colors_wf(colors@.take(0));
    }
    while i < colors.len()
        invariant
            0 <= i <= colors@.len(),
            bits == spec_parse_colors(colors@.take(i as int)),
            bits < 0x20,
        decreases colors@.len() - i,
    {
        proof {
            assert(colors@.take(i + 1).drop_last() =~= colors@.take(i as int));
            assert(colors@.take(i + 1).last() == colors@[i as int]);
        }
        let c = &colors[i];
        let mask: u8 = if str_eq(c.as_str(), "W") {
            0x01
        } else if str_eq(c.as_str(), "U") {
            0x02
        } else if str_eq(c.as_str(), "B") {
            0x04
        } else if str_eq(c.as_str(), "R") {
            0x08
        } else if str_eq(c.as_str(), "G") {
            0x10
        } else {
            0x00
        };
        proof {
            let b = bits;
            assert(b < 0x20 && mask < 0x20 ==> (b | mask) < 0x20) by (bit_vector);
        }
        bits = bits | mask;
        i = i + 1;
    }
    proof {
        assert(colors@.take(colors@.len() as int) =~= colors@);
    }
    ColorSet { bits }
}

// ---------------------------------------------------------------------------
// Legality pairs.
// ---------------------------------------------------------------------------

/// The wire pairs and the parsed pairs line up one for one: same format
/// names, statuses read from the wire tags.
pub open spec fn legalities_match_wire(r: Legalities, wire: Seq<(String, String)>) -> bool {
    &&& r.0@.len() == wire.len()
    &&& forall|i: int|
        0 <= i < wire.len() ==> (#[trigger] r.0@[i]).0.0@ == wire[i].0@ && r.0@[i].1
            == spec_status_from_tag(wire[i].1@)
}

/// Turns wire (format, status text) pairs into legality entries, in
/// order; `legal`, `restricted` and `banned` read as themselves, any
/// other text as not legal.
pub fn parse_legalities(pairs: &Vec<(String, String)>) -> (r: Legalities)
    ensures
        legalities_match_wire(r, pairs@),
{
    let mut out: Vec<(Format, LegalityStatus)> = Vec::new();
    let mut i: usize = 0;
    while i < pairs.len()
        invariant
            0 <= i <= pairs@.len(),
            out@.len() == i,
            forall|k: int|
                0 <= k < i ==> (#[trigger] out@[k]).0.0@ == pairs@[k].0@ && out@[k].1
                    == spec_status_from_tag(pairs@[k].1@),
        decreases pairs@.len() - i,
    {
        let pair = &pairs[i];
        let status = LegalityStatus::from_tag(pair.1.as_str());
        out.push((Format(pair.0.clone()), status));
        i = i + 1;
    }
    Legalities(out)
}

// ---------------------------------------------------------------------------
// Key/value lookups in wire maps.
// ---------------------------------------------------------------------------

/// The first value filed under the key, if any.
pub open spec fn assoc_str(s: Seq<(String, String)>, key: Seq<char>) -> Option<Seq<char>>
    decreases s.len(),
{
    if s.len() == 0 {
        None
    } else if s[0].0@ == key {
        Some(s[0].1@)
    } else {
        assoc_str(s.skip(1), key)
    }
}

/// The first price text filed under the key, if any; the value itself may
/// be absent per currency.
pub open spec fn assoc_opt_str(s: Seq<(String, Option<String>)>, key: Seq<char>) -> Option<
    Option<String>,
>
    decreases s.len(),
{
    if s.len() == 0 {
        None
    } else if s[0].0@ == key {
        Some(s[0].1)
    } else {
        assoc_opt_str(s.skip(1), key)
    }
}

fn lookup_str(m: &Vec<(String, String)>, key: &str) -> (r: Option<String>)
    ensures
        match r {
            Some(v) => assoc_str(m@, key@) == Some(v@),
            None => assoc_str(m@, key@) is None,
        },
{
    let n = m.len();
    proof {
        assert(m@.skip(0) =~= m@);
    }
    let mut i: usize = 0;
    while i < n
        invariant
            n == m@.len(),
            0 <= i <= n,
            assoc_str(m@, key@) == assoc_str(m@.skip(i as int), key@),
        decreases n - i,
    {
        proof {
            assert(m@.skip(i as int)[0] == m@[i as int]);
            assert(m@.skip(i as int).skip(1) =~= m@.skip(i + 1));
        }
        if str_eq(m[i].0.as_str(), key) {
            return Some(m[i].1.clone());
        }
        i = i + 1;
    }
    proof {
        assert(m@.skip(n as int) =~= Seq::<(String, String)>::empty());
    }
    None
}

/// The worth a wire price text stands for: present, readable text parses
/// to its amount; absent or unreadable text stands for no price.
pub open spec fn spec_price_field(s: Seq<(String, Option<String>)>, key: Seq<char>) -> Option<
    DecimalValue,
> {
    match assoc_opt_str(s, key) {
        Some(Some(v)) => spec_parse_decimal(encode_utf8(v@)),
        _ => None,
    }
}

fn lookup_price(m: &Vec<(String, Option<String>)>, key: &str) -> (r: Option<DecimalValue>)
    ensures
        r == spec_price_field(m@, key@),
        r matches Some(d) ==> d.wf(),
{
    let n = m.len();
    proof {
        assert(m@.skip(0) =~= m@);
    }
    let mut i: usize = 0;
    while i < n
        invariant
            n == m@.len(),
            0 <= i <= n,
            assoc_opt_str(m@, key@) == assoc_opt_str(m@.skip(i as int), key@),
        decreases n - i,
    {
        proof {
            assert(m@.skip(i as int)[0] == m@[i as int]);
            assert(m@.skip(i as int).skip(1) =~= m@.skip(i + 1));
        }
        if str_eq(m[i].0.as_str(), key) {
            return match &m[i].1 {
                Some(v) => DecimalValue::from_str(v.as_str()),
                None => None,
            };
        }
        i = i + 1;
    }
    proof {
        assert(m@.skip(n as int) =~= Seq::<(String, Option<String>)>::empty());
    }
    None
}

/// The parsed image links and the wire map agree on all six keys.
pub open spec fn image_uris_match_wire(u: ImageUris, wire: Seq<(String, String)>) -> bool {
    &&& opt_view_eq(u.small, assoc_str(wire, "small"@))
    &&& opt_view_eq(u.normal, assoc_str(wire, "normal"@))
    &&& opt_view_eq(u.large, assoc_str(wire, "large"@))
    &&& opt_view_eq(u.png, assoc_str(wire, "png"@))
    &&& opt_view_eq(u.art_crop, assoc_str(wire, "art_crop"@))
    &&& opt_view_eq(u.border_crop, assoc_str(wire, "border_crop"@))
}

pub open spec fn opt_view_eq(a: Option<String>, b: Option<Seq<char>>) -> bool {
    match (a, b) {
        (Option::Some(x), Option::Some(y)) => x@ == y,
        (Option::None, Option::None) => true,
        _ => false,
    }
}

fn image_uris_from_wire(m: &Vec<(String, String)>) -> (r: ImageUris)
    ensures
        image_uris_match_wire(r, m@),
{
    ImageUris {
        small: lookup_str(m, "small"),
        normal: lookup_str(m, "normal"),
        large: lookup_str(m, "large"),
        png: lookup_str(m, "png"),
        art_crop: lookup_str(m, "art_crop"),
        border_crop: lookup_str(m, "border_crop"),
    }
}

// ---------------------------------------------------------------------------
// Faces.
// ---------------------------------------------------------------------------

/// What the mana-cost fallback yields: one unrecognized symbol carrying
/// the original text verbatim.
pub open spec fn mana_cost_fallback(m: ManaCost, t: Seq<char>) -> bool {
    m.0@.len() == 1 && (m.0@[0] matches ManaSymbol::Unknown(s) && s@ == t)
}

/// What the type-line fallback yields: nothing but the raw text as a
/// single subtype.
pub open spec fn type_line_fallback(tl: TypeLine, t: Seq<char>) -> bool {
    &&& tl.supertypes@.len() == 0
    &&& tl.card_types@.len() == 0
    &&& tl.subtypes@.len() == 1 && tl.subtypes@[0].0@ == t
}

/// What oracle text converts to in this revision: one plain text segment
/// holding the raw prose.
pub open spec fn oracle_text_wrapped(ot: OracleText, t: Seq<char>) -> bool {
    ot.0@.len() == 1 && (ot.0@[0] matches OracleTextSegment::Text(s) && s@ == t)
}

/// How one wire face converts: each structured field parsed by the
/// domain model's parser and, on failure, kept as raw text.
pub open spec fn face_matches_wire(f: CardFace, w: ScryfallCardFace) -> bool {
    &&& f.name@ == w.name@
    &&& (match f.mana_cost {
        Some(m) => w.mana_cost@.len() > 0 && mana_cost_fallback(m, w.mana_cost@),
        None => w.mana_cost@.len() == 0,
    })
    &&& (match w.type_line {
        Some(t) => type_line_fallback(f.type_line, t@),
        None => f.type_line.supertypes@.len() == 0 && f.type_line.card_types@.len() == 0
            && f.type_line.subtypes@.len() == 0,
    })
    &&& (match w.oracle_text {
        Some(t) => oracle_text_wrapped(f.oracle_text, t@),
        None => f.oracle_text.0@.len() == 0,
    })
    &&& f.colors.bits == (match w.colors {
        Some(cs) => spec_parse_colors(cs@),
        None => 0,
    })
    &&& crate::oracle::opt_string_eq(f.power, w.power)
    &&& crate::oracle::opt_string_eq(f.toughness, w.toughness)
    &&& crate::oracle::opt_string_eq(f.loyalty, w.loyalty)
    &&& crate::oracle::opt_string_eq(f.defense, w.defense)
    &&& crate::oracle::opt_string_eq(f.flavor_text, w.flavor_text)
}

/// Parses a mana-cost text, falling back to a single unrecognized symbol
/// carrying the text verbatim.
fn mana_cost_or_fallback(text: String) -> (r: ManaCost)
    ensures
        mana_cost_fallback(r, text@),
{
    match ManaCost::parse(text.as_str()) {
        Ok(m) => m,
        Err(_) => {
            let mut symbols: Vec<ManaSymbol> = Vec::new();
            symbols.push(ManaSymbol::Unknown(text));
            ManaCost(symbols)
        },
    }
}

/// Parses a type-line text, falling back to a line whose only content is
/// the raw text as one subtype.
fn type_line_or_fallback(text: String) -> (r: TypeLine)
    ensures
        type_line_fallback(r, text@),
{
    match TypeLine::parse(text.as_str()) {
        Ok(t) => t,
        Err(_) => {
            let mut subtypes: Vec<Subtype> = Vec::new();
            subtypes.push(Subtype(text));
            TypeLine { supertypes: Vec::new(), card_types: Vec::new(), subtypes }
        },
    }
}

fn wrap_oracle_text(text: String) -> (r: OracleText)
    ensures
        oracle_text_wrapped(r, text@),
{
    let mut segments: Vec<OracleTextSegment> = Vec::new();
    segments.push(OracleTextSegment::Text(text));
    OracleText(segments)
}

fn face_from_wire(w: ScryfallCardFace) -> (r: CardFace)
    ensures
        face_matches_wire(r, w),
{
    let ScryfallCardFace {
        name,
        mana_cost,
        type_line,
        oracle_text,
        colors,
        power,
        toughness,
        loyalty,
        defense,
        flavor_text,
        image_uris: _,
    } = w;
    CardFace {
        name,
        mana_cost: if mana_cost.as_str().is_empty() {
            None
        } else {
            Some(mana_cost_or_fallback(mana_cost))
        },
        type_line: match type_line {
            Some(t) => type_line_or_fallback(t),
            None => TypeLine { supertypes: Vec::new(), card_types: Vec::new(), subtypes: Vec::new() },
        },
        oracle_text: match oracle_text {
            Some(t) => wrap_oracle_text(t),
            None => OracleText(Vec::new()),
        },
        colors: match &colors {
            Some(cs) => parse_colors(cs),
            None => ColorSet::empty(),
        },
        power,
        toughness,
        loyalty,
        defense,
        flavor_text,
    }
}

// ---------------------------------------------------------------------------
// Whole-record conversion.
// ---------------------------------------------------------------------------

/// How one wire record converts into an oracle card and a printing,
/// given the fresh identifier drawn for a record without one and the
/// moment the conversion ran. Keywords, popularity rank, the reserved
/// flag, the printing's flags and its language are not taken from the
/// wire in this revision; the single-face path likewise leaves power,
/// toughness, loyalty, defense and flavor text absent.
pub open spec fn converted(
    w: ScryfallCard,
    fid: Uuid,
    ts: Timestamp,
    oc: OracleCard,
    p: Printing,
) -> bool {
    &&& oc.oracle_id == (match w.oracle_id {
        Some(o) => o,
        None => fid,
    })
    &&& (match spec_layout_from_tag(w.layout@) {
        Some(l) => oc.layout == l,
        None => oc.layout matches CardLayout::Unknown(s) && s@ == w.layout@,
    })
    &&& (match w.card_faces {
        Some(cf) => oc.faces@.len() == cf@.len() && (forall|i: int|
            0 <= i < cf@.len() ==> face_matches_wire(#[trigger] oc.faces@[i], cf@[i])),
        None => oc.faces@.len() == 1 && single_face_matches(oc.faces@[0], w),
    })
    &&& oc.color_identity.bits == spec_parse_colors(w.color_identity@)
    &&& oc.keywords@.len() == 0
    &&& legalities_match_wire(oc.legalities, w.legalities@)
    &&& oc.edh_rank is None
    &&& oc.reserved == false
    &&& p.id == w.id
    &&& p.oracle_id == oc.oracle_id
    &&& p.set_code@ == w.set@
    &&& p.collector_number@ == w.collector_number@
    &&& p.rarity == (match spec_rarity_from_tag(w.rarity@) {
        Some(r) => r,
        None => Rarity::Common,
    })
    &&& p.lang@ == "en"@
    &&& p.released_at == (match spec_parse_date(encode_utf8(w.released_at@)) {
        Some(d) => d,
        None => Date { year: 1970, month: 1, day: 1 },
    })
    &&& (match (p.image_uris, w.image_uris) {
        (Option::Some(u), Option::Some(m)) => image_uris_match_wire(u, m@),
        (Option::None, Option::None) => true,
        _ => false,
    })
    &&& p.promo == false && p.digital == false && p.full_art == false && p.textless == false
        && p.reprint == false
    &&& (match (p.prices, w.prices) {
        (Option::Some(ps), Option::Some(m)) => {
            &&& ps.usd == spec_price_field(m@, "usd"@)
            &&& ps.usd_foil == spec_price_field(m@, "usd_foil"@)
            &&& ps.eur == spec_price_field(m@, "eur"@)
            &&& ps.tix == spec_price_field(m@, "tix"@)
            &&& ps.fetched_at == ts
        },
        (Option::None, Option::None) => true,
        _ => false,
    })
    &&& (match p.prices {
        Some(ps) => price_snapshot_wf(ps),
        None => true,
    })
    &&& p.released_at.wf()
}

/// The one face synthesized for a record without a face list, from the
/// record's own top-level fields; power, toughness, loyalty, defense and
/// flavor text are left absent on this path even when the record carries
/// them.
pub open spec fn single_face_matches(f: CardFace, w: ScryfallCard) -> bool {
    &&& f.name@ == w.name@
    &&& (match f.mana_cost {
        Some(m) => (w.mana_cost matches Some(t) && t@.len() > 0 && mana_cost_fallback(m, t@)),
        None => w.mana_cost is None || (w.mana_cost matches Some(t) && t@.len() == 0),
    })
    &&& (match w.type_line {
        Some(t) => type_line_fallback(f.type_line, t@),
        None => f.type_line.supertypes@.len() == 0 && f.type_line.card_types@.len() == 0
            && f.type_line.subtypes@.len() == 0,
    })
    &&& (match w.oracle_text {
        Some(t) => oracle_text_wrapped(f.oracle_text, t@),
        None => f.oracle_text.0@.len() == 0,
    })
    &&& f.colors.bits == (match w.colors {
        Some(cs) => spec_parse_colors(cs@),
        None => 0,
    })
    &&& f.power is None && f.toughness is None && f.loyalty is None && f.defense is None
        && f.flavor_text is None
}

impl ScryfallCard {
    /// Converts one wire record with the given fresh identifier and
    /// conversion moment already drawn; everything else is a function of
    /// the record alone.
    pub fn into_core_with(self, fid: Uuid, ts: Timestamp) -> (r: (OracleCard, Printing))
        ensures
            converted(self, fid, ts, r.0, r.1),
    {
        let ScryfallCard {
            id,
            oracle_id,
            name,
            layout,
            mana_cost,
            type_line,
            oracle_text,
            colors,
            color_identity,
            keywords: _,
            legalities,
            set,
            collector_number,
            rarity,
            released_at,
            power: _,
            toughness: _,
            flavor_text: _,
            lang: _,
            edhrec_rank: _,
            reserved: _,
            promo: _,
            digital: _,
            full_art: _,
            textless: _,
            reprint: _,
            image_uris,
            prices,
            card_faces,
        } = self;
        let oid = match oracle_id {
            Some(o) => o,
            None => fid,
        };
        let layout_parsed = CardLayout::from_tag(layout.as_str());
        let faces: Vec<CardFace> = match card_faces {
            Some(cf) => {
                let ghost cf0 = cf@;
                let mut out: Vec<CardFace> = Vec::new();
                let mut i: usize = 0;
                let n = cf.len();
                let mut rest = cf;
                // Consume the wire faces front to back.
                while i < n
                    invariant
                        n == cf0.len(),
                        0 <= i <= n,
                        rest@ =~= cf0.skip(i as int),
                        out@.len() == i,
                        forall|k: int|
                            0 <= k < i ==> face_matches_wire(#[trigger] out@[k], cf0[k]),
                    decreases n - i,
                {
                    proof {
                        assert(rest@[0] == cf0[i as int]);
                        assert(rest@.remove(0) =~= cf0.skip(i + 1));
                    }
                    let w = rest.remove(0);
                    out.push(face_from_wire(w));
                    i = i + 1;
                }
                out
            },
            None => {
                let face = CardFace {
                    name,
                    mana_cost: match mana_cost {
                        Some(t) => if t.as_str().is_empty() {
                            None
                        } else {
                            Some(mana_cost_or_fallback(t))
                        },
                        None => None,
                    },
                    type_line: match type_line {
                        Some(t) => type_line_or_fallback(t),
                        None => TypeLine {
                            supertypes: Vec::new(),
                            card_types: Vec::new(),
                            subtypes: Vec::new(),
                        },
                    },
                    oracle_text: match oracle_text {
                        Some(t) => wrap_oracle_text(t),
                        None => OracleText(Vec::new()),
                    },
                    colors: match &colors {
                        Some(cs) => parse_colors(cs),
                        None => ColorSet::empty(),
                    },
                    power: None,
                    toughness: None,
                    loyalty: None,
                    defense: None,
                    flavor_text: None,
                };
                let mut v: Vec<CardFace> = Vec::new();
                v.push(face);
                v
            },
        };
        let oracle_card = OracleCard {
            oracle_id: oid,
            layout: layout_parsed,
            faces,
            color_identity: parse_colors(&color_identity),
            keywords: Vec::new(),
            legalities: parse_legalities(&legalities),
            edh_rank: None,
            reserved: false,
        };
        let parsed_uris: Option<ImageUris> = match &image_uris {
            Some(m) => Some(image_uris_from_wire(m)),
            None => None,
        };
        let parsed_prices: Option<PriceSnapshot> = match &prices {
            Some(m) => Some(
                PriceSnapshot {
                    usd: lookup_price(m, "usd"),
                    usd_foil: lookup_price(m, "usd_foil"),
                    eur: lookup_price(m, "eur"),
                    tix: lookup_price(m, "tix"),
                    fetched_at: ts,
                },
            ),
            None => None,
        };
        let released = match crate::time::parse_date(released_at.as_str()) {
            Some(d) => d,
            None => Date::epoch(),
        };
        let printing = Printing {
            id,
            oracle_id: oid,
            set_code: set,
            collector_number,
            rarity: Rarity::from_tag_or_common(rarity.as_str()),
            lang: String::from_str("en"),
            released_at: released,
            image_uris: parsed_uris,
            promo: false,
            digital: false,
            full_art: false,
            textless: false,
            reprint: false,
            prices: parsed_prices,
        };
        (oracle_card, printing)
    }

    /// Converts one wire record into the domain model, drawing a fresh
    /// random identifier for a record without one and stamping any price
    /// snapshot with the present moment.
    pub fn into_core(self) -> (r: (OracleCard, Printing))
        ensures
            exists|fid: Uuid, ts: Timestamp| converted(self, fid, ts, r.0, r.1),
    {
        let fid = fresh_uuid();
        let ts = now_timestamp();
        let ghost w = self;
        let r = self.into_core_with(fid, ts);
        proof {
            assert(converted(w, fid, ts, r.0, r.1));
        }
        r
    }
}

} // verus!
